use aes::cipher::generic_array::GenericArray;
use aes::cipher::{BlockDecrypt, KeyInit};
use aes::{Aes128, Block};
use triplicata::cipher::{device_identifier, Cipher, CipherError};

const KEY: [u8; 16] = [
    0x01, 0x02, 0x42, 0x28, 0x31, 0x91, 0x16, 0x07, 0x20, 0x05, 0x18, 0x54, 0x42, 0x11, 0x12, 0x53,
];
const IV: [u8; 16] = [
    0x11, 0x03, 0x32, 0x28, 0x21, 0x01, 0x76, 0x27, 0x20, 0x95, 0x78, 0x14, 0x32, 0x12, 0x02, 0x43,
];

fn mixed(base: &[u8; 16], id: &[u8]) -> [u8; 16] {
    let mut r = *base;
    for i in 0..6 {
        r[i] = ((base[i] as u16 + id[i] as u16) % 255) as u8;
    }
    r
}

fn packet(len: usize) -> Vec<u8> {
    (0..len).map(|i| (i * 37 + 11) as u8).collect()
}

#[test]
fn round_trip_for_several_lengths() {
    let cipher = Cipher::derive(&[0xfe, 0x10, 0x7f, 0x80, 0x00, 0xff]);
    for len in [17usize, 20, 31, 32, 33, 48] {
        let plain = packet(len);
        let sealed = cipher.encrypt(&plain).unwrap();
        assert_eq!(sealed.len(), len);
        assert_ne!(sealed, plain);
        assert_eq!(cipher.decrypt(&sealed).unwrap(), plain);
    }
}

#[test]
fn encrypt_undoes_decrypt() {
    let cipher = Cipher::derive(&[0x33, 0x44, 0x55, 0x66, 0x77, 0x88]);
    for len in [17usize, 24, 32, 45] {
        let sealed = packet(len);
        let plain = cipher.decrypt(&sealed).unwrap();
        assert_eq!(plain.len(), len);
        assert_ne!(plain, sealed);
        assert_eq!(cipher.encrypt(&plain).unwrap(), sealed);
    }
}

#[test]
fn short_packets_are_refused() {
    let cipher = Cipher::derive(&[1, 2, 3, 4, 5, 6]);
    assert_eq!(cipher.decrypt(&packet(16)), Err(CipherError::PacketTooShort));
    assert_eq!(cipher.encrypt(&packet(16)), Err(CipherError::PacketTooShort));
    assert_eq!(cipher.decrypt(&[]), Err(CipherError::PacketTooShort));
}

#[test]
fn decrypt_matches_block_by_block_computation() {
    let id = [0xf0u8, 0x22, 0x01, 0xaa, 0x7e, 0xfe];
    let key = mixed(&KEY, &id);
    let iv = mixed(&IV, &id);
    // Sums that reach 255 wrap modulo 255, not 256.
    assert_eq!(key[5], ((0x91u16 + 0xfe) % 255) as u8);
    let aes = Aes128::new(GenericArray::from_slice(&key));
    let cipher = Cipher::derive(&id);
    let c = packet(20);

    let mut expected = c.clone();
    let mut last = Block::clone_from_slice(&expected[4..20]);
    aes.decrypt_block(&mut last);
    for i in 0..16 {
        expected[4 + i] = last[i] ^ iv[i];
    }
    let mut first = Block::clone_from_slice(&expected[0..16]);
    aes.decrypt_block(&mut first);
    for i in 0..16 {
        expected[i] = first[i] ^ iv[i];
    }
    assert_eq!(cipher.decrypt(&c).unwrap(), expected);
}

#[test]
fn interior_bytes_stay_encrypted() {
    let cipher = Cipher::derive(&[9, 8, 7, 6, 5, 4]);
    let c = packet(40);
    let p = cipher.decrypt(&c).unwrap();
    assert_eq!(&p[16..24], &c[16..24]);
    assert_ne!(&p[0..16], &c[0..16]);
}

#[test]
fn derivation_depends_on_identifier_only() {
    let a = Cipher::derive(&[1, 2, 3, 4, 5, 6]);
    let b = Cipher::derive(&[1, 2, 3, 4, 5, 6]);
    let c = Cipher::derive(&[1, 2, 3, 4, 5, 7]);
    let plain = packet(20);
    assert_eq!(a.encrypt(&plain).unwrap(), b.encrypt(&plain).unwrap());
    assert_ne!(a.encrypt(&plain).unwrap(), c.encrypt(&plain).unwrap());
}

#[test]
fn identifier_comes_from_bytes_three_to_eight() {
    let record = [0u8, 1, 2, 3, 4, 5, 6, 7, 8, 9];
    assert_eq!(device_identifier(&record), Some(vec![3, 4, 5, 6, 7, 8]));
    assert_eq!(device_identifier(&record[..9]), Some(vec![3, 4, 5, 6, 7, 8]));
    assert_eq!(device_identifier(&record[..8]), None);
}
