use aes::cipher::generic_array::GenericArray;
use aes::cipher::{BlockDecrypt, BlockEncrypt, KeyInit};
use aes::{Aes128, Block};
use vstd::prelude::*;
use vstd::slice::slice_to_vec;

verus! {

/// The vendor's base key, before the device identifier is mixed in.
pub open spec fn base_key() -> Seq<u8> {
    seq![
        0x01u8, 0x02, 0x42, 0x28, 0x31, 0x91, 0x16, 0x07,
        0x20, 0x05, 0x18, 0x54, 0x42, 0x11, 0x12, 0x53,
    ]
}

/// The vendor's base initialisation vector, before the device identifier is
/// mixed in.
pub open spec fn base_iv() -> Seq<u8> {
    seq![
        0x11u8, 0x03, 0x32, 0x28, 0x21, 0x01, 0x76, 0x27,
        0x20, 0x95, 0x78, 0x14, 0x32, 0x12, 0x02, 0x43,
    ]
}

/// A 16-byte constant with the 6-byte device identifier mixed in: each of
/// the first six bytes is the sum of the two bytes modulo 255, the other ten
/// bytes are kept.
pub open spec fn derived_bytes(base: Seq<u8>, id: Seq<u8>) -> Seq<u8> {
    Seq::new(
        16,
        |i: int|
            if i < 6 {
                ((base[i] + id[i]) % 255) as u8
            } else {
                base[i]
            },
    )
}

/// The 16 bytes of `block`, each combined by exclusive or with the byte of
/// `iv` at the same place.
pub open spec fn xor_block(block: Seq<u8>, iv: Seq<u8>) -> Seq<u8> {
    Seq::new(16, |i: int| block[i] ^ iv[i])
}

/// `v` with the 16 bytes from `at` on replaced by `block`.
pub open spec fn splice(v: Seq<u8>, at: int, block: Seq<u8>) -> Seq<u8> {
    v.subrange(0, at) + block + v.subrange(at + 16, v.len() as int)
}

/// AES-128 decryption of one 16-byte block under a 16-byte key.
pub uninterp spec fn aes128_decrypt_block(key: Seq<u8>, block: Seq<u8>) -> Seq<u8>;

/// AES-128 encryption of one 16-byte block under a 16-byte key.
pub uninterp spec fn aes128_encrypt_block(key: Seq<u8>, block: Seq<u8>) -> Seq<u8>;

/// A packet decrypted: first its last 16 bytes, then its first 16 bytes,
/// which may overlap the last ones; each block is decrypted and then
/// combined with the initialisation vector. Bytes between the two windows
/// stay as they are.
pub open spec fn decrypted(key: Seq<u8>, iv: Seq<u8>, c: Seq<u8>) -> Seq<u8> {
    let at = c.len() - 16;
    let v = splice(c, at, xor_block(aes128_decrypt_block(key, c.subrange(at, c.len() as int)), iv));
    splice(v, 0, xor_block(aes128_decrypt_block(key, v.subrange(0, 16)), iv))
}

/// A packet encrypted: first its first 16 bytes, then its last 16 bytes;
/// each block is combined with the initialisation vector and then encrypted.
pub open spec fn encrypted(key: Seq<u8>, iv: Seq<u8>, p: Seq<u8>) -> Seq<u8> {
    let v = splice(p, 0, aes128_encrypt_block(key, xor_block(p.subrange(0, 16), iv)));
    let at = p.len() - 16;
    splice(v, at, aes128_encrypt_block(key, xor_block(v.subrange(at, v.len() as int), iv)))
}

/// Relies on `aes::Aes128` (`KeyInit::new`, `BlockDecrypt::decrypt_block`):
/// the decryption of a 16-byte block under a 16-byte key is 16 bytes, and
/// encrypting it under the same key gives the block back.
#[verifier::external_body]
fn aes_decrypt(key: &Vec<u8>, block: &Vec<u8>) -> (r: Vec<u8>)
    requires
        key@.len() == 16,
        block@.len() == 16,
    ensures
        r@ == aes128_decrypt_block(key@, block@),
        r@.len() == 16,
        aes128_encrypt_block(key@, r@) == block@,
{
    let aes = Aes128::new(GenericArray::from_slice(key));
    let mut b = Block::clone_from_slice(block);
    aes.decrypt_block(&mut b);
    b.to_vec()
}

/// Relies on `aes::Aes128` (`KeyInit::new`, `BlockEncrypt::encrypt_block`):
/// the encryption of a 16-byte block under a 16-byte key is 16 bytes, and
/// decrypting it under the same key gives the block back.
#[verifier::external_body]
fn aes_encrypt(key: &Vec<u8>, block: &Vec<u8>) -> (r: Vec<u8>)
    requires
        key@.len() == 16,
        block@.len() == 16,
    ensures
        r@ == aes128_encrypt_block(key@, block@),
        r@.len() == 16,
        aes128_decrypt_block(key@, r@) == block@,
{
    let aes = Aes128::new(GenericArray::from_slice(key));
    let mut b = Block::clone_from_slice(block);
    aes.encrypt_block(&mut b);
    b.to_vec()
}

/// Why a packet could not be decrypted or encrypted.
#[derive(Debug, Clone, Copy, PartialEq, Eq, Structural)]
pub enum CipherError {
    /// The packet holds 16 bytes or fewer: it must be longer than one block.
    PacketTooShort,
}

/// The byte-wise combination of `block` and `iv`.
fn xor_with(block: &Vec<u8>, iv: &Vec<u8>) -> (r: Vec<u8>)
    requires
        block@.len() == 16,
        iv@.len() == 16,
    ensures
        r@ == xor_block(block@, iv@),
{
    let mut r: Vec<u8> = Vec::new();
    let mut i: usize = 0;
    while i < 16
        invariant
            i <= 16,
            block@.len() == 16,
            iv@.len() == 16,
            r@ =~= Seq::new(i as nat, |k: int| block@[k] ^ iv@[k]),
        decreases 16 - i,
    {
        r.push(block[i] ^ iv[i]);
        i = i + 1;
    }
    assert(r@ =~= xor_block(block@, iv@));
    r
}

/// The 16 bytes of `v` from `at` on.
fn block_at(v: &Vec<u8>, at: usize) -> (r: Vec<u8>)
    requires
        at + 16 <= v@.len(),
    ensures
        r@ == v@.subrange(at as int, at + 16),
{
    let n = v.len();
    let mut r: Vec<u8> = Vec::new();
    let mut i: usize = 0;
    while i < 16
        invariant
            i <= 16,
            n == v@.len(),
            at + 16 <= n,
            r@ =~= v@.subrange(at as int, at + i),
        decreases 16 - i,
    {
        r.push(v[at + i]);
        i = i + 1;
    }
    r
}

/// Writes `block` over the 16 bytes of `v` from `at` on.
fn write_block(v: &mut Vec<u8>, at: usize, block: &Vec<u8>)
    requires
        at + 16 <= old(v)@.len(),
        block@.len() == 16,
    ensures
        final(v)@ == splice(old(v)@, at as int, block@),
{
    let n = v.len();
    let mut i: usize = 0;
    while i < 16
        invariant
            i <= 16,
            block@.len() == 16,
            n == old(v)@.len(),
            at + 16 <= n,
            v@.len() == old(v)@.len(),
            v@ =~= old(v)@.subrange(0, at as int) + block@.subrange(0, i as int) + old(v)@.subrange(
                at + i,
                old(v)@.len() as int,
            ),
        decreases 16 - i,
    {
        v.set(at + i, block[i]);
        i = i + 1;
    }
    assert(v@ =~= splice(old(v)@, at as int, block@));
}

/// The stream cipher of the device: AES-128 under a key and an
/// initialisation vector derived from the device's identifier.
pub struct Cipher {
    key: Vec<u8>,
    iv: Vec<u8>,
}

impl Cipher {
    /// The session key.
    pub closed spec fn key(&self) -> Seq<u8> {
        self.key@
    }

    /// The session initialisation vector.
    pub closed spec fn iv(&self) -> Seq<u8> {
        self.iv@
    }

    /// Key and initialisation vector both hold 16 bytes.
    pub closed spec fn wf(&self) -> bool {
        self.key@.len() == 16 && self.iv@.len() == 16
    }

    /// Derives the session key and initialisation vector from the 6-byte
    /// device identifier.
    pub fn derive(id: &[u8]) -> (r: Cipher)
        requires
            id@.len() == 6,
        ensures
            r.wf(),
            r.key() == derived_bytes(base_key(), id@),
            r.iv() == derived_bytes(base_iv(), id@),
    {
        let mut key: Vec<u8> = vec![
            0x01u8, 0x02, 0x42, 0x28, 0x31, 0x91, 0x16, 0x07,
            0x20, 0x05, 0x18, 0x54, 0x42, 0x11, 0x12, 0x53,
        ];
        let mut iv: Vec<u8> = vec![
            0x11u8, 0x03, 0x32, 0x28, 0x21, 0x01, 0x76, 0x27,
            0x20, 0x95, 0x78, 0x14, 0x32, 0x12, 0x02, 0x43,
        ];
        assert(key@ =~= base_key());
        assert(iv@ =~= base_iv());
        let mut i: usize = 0;
        while i < 6
            invariant
                i <= 6,
                id@.len() == 6,
                key@.len() == 16,
                iv@.len() == 16,
                forall|k: int| 0 <= k < 16 ==> #[trigger] key@[k] == if k < i {
                    ((base_key()[k] + id@[k]) % 255) as u8
                } else {
                    base_key()[k]
                },
                forall|k: int| 0 <= k < 16 ==> #[trigger] iv@[k] == if k < i {
                    ((base_iv()[k] + id@[k]) % 255) as u8
                } else {
                    base_iv()[k]
                },
            decreases 6 - i,
        {
            let k = ((key[i] as u16 + id[i] as u16) % 255) as u8;
            let v = ((iv[i] as u16 + id[i] as u16) % 255) as u8;
            key.set(i, k);
            iv.set(i, v);
            i = i + 1;
        }
        assert(key@ =~= derived_bytes(base_key(), id@));
        assert(iv@ =~= derived_bytes(base_iv(), id@));
        Cipher { key, iv }
    }

    /// Decrypts a notification packet, which must be longer than one block.
    pub fn decrypt(&self, value: &[u8]) -> (r: Result<Vec<u8>, CipherError>)
        requires
            self.wf(),
        ensures
            value@.len() <= 16 <==> r == Err::<Vec<u8>, CipherError>(CipherError::PacketTooShort),
            r matches Ok(p) ==> p@ == decrypted(self.key(), self.iv(), value@),
            r matches Ok(p) ==> p@.len() == value@.len(),
            r matches Ok(p) ==> forall|k: int| 16 <= k < value@.len() - 16 ==> #[trigger] p@[k] == value@[k],
            r matches Ok(p) ==> encrypted(self.key(), self.iv(), p@) == value@,
    {
        if value.len() <= 16 {
            return Err(CipherError::PacketTooShort);
        }
        let mut v = slice_to_vec(value);
        let at = v.len() - 16;
        let tail = block_at(&v, at);
        let last = aes_decrypt(&self.key, &tail);
        let plain = xor_with(&last, &self.iv);
        write_block(&mut v, at, &plain);
        let ghost v1 = v@;
        let head = block_at(&v, 0);
        let first = aes_decrypt(&self.key, &head);
        let plain = xor_with(&first, &self.iv);
        write_block(&mut v, 0, &plain);
        proof {
            let c = value@;
            let p = v@;
            lemma_xor_twice(first@, self.iv@);
            lemma_xor_twice(last@, self.iv@);
            assert(p.subrange(0, 16) =~= xor_block(first@, self.iv@));
            assert(splice(p, 0, v1.subrange(0, 16)) =~= v1);
            assert(v1.subrange(at as int, at + 16) =~= xor_block(last@, self.iv@));
            assert(v1.subrange(at as int, v1.len() as int) =~= v1.subrange(at as int, at + 16));
            assert(splice(v1, at as int, c.subrange(at as int, c.len() as int)) =~= c);
            assert forall|k: int| 16 <= k < c.len() - 16 implies #[trigger] p[k] == c[k] by {
                assert(p[k] == v1[k]);
            }
        }
        Ok(v)
    }

    /// Encrypts a packet, which must be longer than one block; decrypting
    /// the result gives the packet back.
    pub fn encrypt(&self, value: &[u8]) -> (r: Result<Vec<u8>, CipherError>)
        requires
            self.wf(),
        ensures
            value@.len() <= 16 <==> r == Err::<Vec<u8>, CipherError>(CipherError::PacketTooShort),
            r matches Ok(c) ==> c@ == encrypted(self.key(), self.iv(), value@),
            r matches Ok(c) ==> decrypted(self.key(), self.iv(), c@) == value@,
            r matches Ok(c) ==> c@.len() == value@.len(),
            r matches Ok(c) ==> forall|k: int| 16 <= k < value@.len() - 16 ==> #[trigger] c@[k] == value@[k],
    {
        if value.len() <= 16 {
            return Err(CipherError::PacketTooShort);
        }
        let mut v = slice_to_vec(value);
        let head = block_at(&v, 0);
        let mixed = xor_with(&head, &self.iv);
        let first = aes_encrypt(&self.key, &mixed);
        write_block(&mut v, 0, &first);
        let ghost v1 = v@;
        let at = v.len() - 16;
        let tail = block_at(&v, at);
        let mixed = xor_with(&tail, &self.iv);
        let last = aes_encrypt(&self.key, &mixed);
        write_block(&mut v, at, &last);
        proof {
            let p = value@;
            let c = v@;
            lemma_xor_twice(v1.subrange(at as int, at + 16), self.iv@);
            lemma_xor_twice(p.subrange(0, 16), self.iv@);
            assert(c.subrange(at as int, c.len() as int) =~= last@);
            let w = splice(c, at as int, v1.subrange(at as int, at + 16));
            assert(w =~= v1);
            assert(v1.subrange(0, 16) =~= first@);
            assert(splice(v1, 0, p.subrange(0, 16)) =~= p);
            assert forall|k: int| 16 <= k < p.len() - 16 implies #[trigger] c[k] == p[k] by {
                assert(c[k] == v1[k]);
            }
        }
        Ok(v)
    }
}

/// Combining with the same vector twice gives the block back.
proof fn lemma_xor_twice(block: Seq<u8>, iv: Seq<u8>)
    requires
        block.len() == 16,
        iv.len() == 16,
    ensures
        xor_block(xor_block(block, iv), iv) == block,
{
    assert forall|k: int| 0 <= k < 16 implies xor_block(xor_block(block, iv), iv)[k] == block[k] by {
        let x = block[k];
        let y = iv[k];
        assert((x ^ y) ^ y == x) by (bit_vector);
    }
    assert(xor_block(xor_block(block, iv), iv) =~= block);
}

/// The 6-byte device identifier held in a manufacturer-data record: bytes 3
/// to 8, where the record holds at least 9 bytes.
pub fn device_identifier(record: &[u8]) -> (r: Option<Vec<u8>>)
    ensures
        record@.len() >= 9 <==> r is Some,
        r matches Some(id) ==> id@ == record@.subrange(3, 9),
{
    if record.len() < 9 {
        return None;
    }
    let mut id: Vec<u8> = Vec::new();
    let mut i: usize = 3;
    while i < 9
        invariant
            3 <= i <= 9,
            record@.len() >= 9,
            id@ =~= record@.subrange(3, i as int),
        decreases 9 - i,
    {
        id.push(record[i]);
        i = i + 1;
    }
    Some(id)
}

/// Key derivation depends on the identifier alone: equal identifiers give
/// equal keys and vectors, and byte `i` of each is the base byte plus the
/// identifier byte modulo 255 for `i` below 6, and the base byte otherwise.
pub proof fn lemma_derivation(id1: Seq<u8>, id2: Seq<u8>, i: int)
    requires
        id1.len() == 6,
        id2.len() == 6,
        0 <= i < 16,
    ensures
        id1 == id2 ==> derived_bytes(base_key(), id1) == derived_bytes(base_key(), id2)
            && derived_bytes(base_iv(), id1) == derived_bytes(base_iv(), id2),
        derived_bytes(base_key(), id1).len() == 16,
        derived_bytes(base_iv(), id1).len() == 16,
        derived_bytes(base_key(), id1)[i] == if i < 6 {
            ((base_key()[i] + id1[i]) % 255) as u8
        } else {
            base_key()[i]
        },
        derived_bytes(base_iv(), id1)[i] == if i < 6 {
            ((base_iv()[i] + id1[i]) % 255) as u8
        } else {
            base_iv()[i]
        },
{
}

} // verus!
