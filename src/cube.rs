use vstd::arithmetic::power2::{lemma2_to64, lemma_pow2_pos, lemma_pow2_strictly_increases, lemma_pow2_unfold, pow2};
use vstd::prelude::*;

verus! {

/// A quarter turn of one face of the cube; the primed variants turn
/// counter-clockwise.
#[derive(Debug, Clone, Copy, PartialEq, Eq, Structural)]
pub enum Move {
    U,
    Up,
    R,
    Rp,
    F,
    Fp,
    D,
    Dp,
    L,
    Lp,
    B,
    Bp,
}

/// The move that a 5-bit move code stands for, in the device's order
/// `U, U', R, R', F, F', D, D', L, L', B, B'`; codes from 12 on stand for none.
pub open spec fn move_of(code: int) -> Option<Move> {
    if code == 0 {
        Some(Move::U)
    } else if code == 1 {
        Some(Move::Up)
    } else if code == 2 {
        Some(Move::R)
    } else if code == 3 {
        Some(Move::Rp)
    } else if code == 4 {
        Some(Move::F)
    } else if code == 5 {
        Some(Move::Fp)
    } else if code == 6 {
        Some(Move::D)
    } else if code == 7 {
        Some(Move::Dp)
    } else if code == 8 {
        Some(Move::L)
    } else if code == 9 {
        Some(Move::Lp)
    } else if code == 10 {
        Some(Move::B)
    } else if code == 11 {
        Some(Move::Bp)
    } else {
        None
    }
}

/// Looks up the move that `code` stands for.
pub fn move_from_code(code: u32) -> (r: Option<Move>)
    ensures
        r == move_of(code as int),
{
    match code {
        0 => Some(Move::U),
        1 => Some(Move::Up),
        2 => Some(Move::R),
        3 => Some(Move::Rp),
        4 => Some(Move::F),
        5 => Some(Move::Fp),
        6 => Some(Move::D),
        7 => Some(Move::Dp),
        8 => Some(Move::L),
        9 => Some(Move::Lp),
        10 => Some(Move::B),
        11 => Some(Move::Bp),
        _ => None,
    }
}

/// Bit `k` of `data`, numbering from the most significant bit of byte 0.
pub open spec fn bit_at(data: Seq<u8>, k: int) -> bool {
    data[k / 8] & (1u8 << ((7 - k % 8) as u8)) != 0
}

/// The unsigned number whose binary digits, most significant first, are the
/// `count` bits of `data` that start at bit `start`.
pub open spec fn bits_value(data: Seq<u8>, start: int, count: nat) -> nat
    decreases count,
{
    if count == 0 {
        0
    } else {
        2 * bits_value(data, start, (count - 1) as nat) + if bit_at(data, start + count - 1) {
            1nat
        } else {
            0nat
        }
    }
}

proof fn lemma_bits_value_bound(data: Seq<u8>, start: int, count: nat)
    ensures
        bits_value(data, start, count) < pow2(count),
    decreases count,
{
    if count > 0 {
        lemma_bits_value_bound(data, start, (count - 1) as nat);
        lemma_pow2_unfold(count);
    } else {
        lemma_pow2_pos(0);
    }
}

/// Reads `count` bits of `data` from bit `start` on, most significant bit
/// first, as an unsigned number.
pub fn extract_bits(data: &[u8], start: usize, count: usize) -> (r: u32)
    requires
        count <= 32,
        start + count <= 8 * data@.len(),
        start + count <= usize::MAX,
    ensures
        r as nat == bits_value(data@, start as int, count as nat),
{
    let mut result: u32 = 0;
    let mut i: usize = 0;
    while i < count
        invariant
            i <= count,
            count <= 32,
            start + count <= usize::MAX,
            start + count <= 8 * data@.len(),
            result as nat == bits_value(data@, start as int, i as nat),
        decreases count - i,
    {
        let bit = start + i;
        proof {
            lemma_bits_value_bound(data@, start as int, (i + 1) as nat);
            lemma2_to64();
            if i + 1 < 32 {
                lemma_pow2_strictly_increases((i + 1) as nat, 32);
            }
        }
        let set = data[bit / 8] & (1u8 << ((7 - bit % 8) as u8)) != 0;
        assert(set == bit_at(data@, bit as int));
        if set {
            result = result * 2 + 1;
        } else {
            result = result * 2;
        }
        i = i + 1;
    }
    result
}

/// The message-type tag of a move message.
pub const MOVE_MESSAGE: u32 = 2;

/// The message-type tag of a packet: its first four bits.
pub open spec fn message_type(packet: Seq<u8>) -> nat {
    bits_value(packet, 0, 4)
}

/// The move counter of a move message: the eight bits after the tag.
pub open spec fn counter_of(packet: Seq<u8>) -> u8 {
    bits_value(packet, 4, 8) as u8
}

/// How many moves were made between two counter readings: the counter wraps
/// around after 255.
pub open spec fn move_delta(prior: u8, current: u8) -> nat {
    ((current - prior) % 256) as nat
}

/// The move held in slot `i` of a move message, as a sequence of at most one
/// move: slot `i` is the 5-bit code at bit `12 + 5 * i`, and a code without
/// a move yields none.
pub open spec fn slot_moves(packet: Seq<u8>, i: int) -> Seq<Move> {
    match move_of(bits_value(packet, 12 + 5 * i, 5) as int) {
        Some(m) => seq![m],
        None => seq![],
    }
}

/// The `delta` slots of a move message lie inside the packet.
pub open spec fn slots_fit(packet: Seq<u8>, delta: nat) -> bool {
    12 + 5 * delta <= 8 * packet.len()
}

/// The first `j` of the `delta` newest moves of a move message, oldest first.
/// The newest move sits in slot 0, so the oldest of them sits in slot
/// `delta - 1`.
pub open spec fn new_moves(packet: Seq<u8>, delta: nat, j: nat) -> Seq<Move>
    decreases j,
{
    if j == 0 {
        seq![]
    } else {
        new_moves(packet, delta, (j - 1) as nat) + slot_moves(packet, delta - j)
    }
}

/// What a decrypted packet tells a reader that last saw the counter `prior`:
/// the counter to keep, and the moves made since, oldest first. A packet
/// that is not a move message changes nothing, nor does one that counts more
/// moves than its slots can hold; the first move message only sets the
/// counter.
pub open spec fn decoded(packet: Seq<u8>, prior: Option<u8>) -> (Option<u8>, Seq<Move>) {
    if packet.len() < 2 || message_type(packet) != MOVE_MESSAGE {
        (prior, seq![])
    } else {
        match prior {
            None => (Some(counter_of(packet)), seq![]),
            Some(last) => if slots_fit(packet, move_delta(last, counter_of(packet))) {
                (
                    Some(counter_of(packet)),
                    new_moves(packet, move_delta(last, counter_of(packet)), move_delta(last, counter_of(packet))),
                )
            } else {
                (prior, seq![])
            },
        }
    }
}

/// Decodes a decrypted packet against the last counter seen, returning the
/// counter to keep and the new moves, oldest first.
pub fn decode_moves(packet: &[u8], prior: Option<u8>) -> (r: (Option<u8>, Vec<Move>))
    ensures
        r.0 == decoded(packet@, prior).0,
        r.1@ == decoded(packet@, prior).1,
{
    if packet.len() < 2 {
        return (prior, Vec::new());
    }
    let kind = extract_bits(packet, 0, 4);
    if kind != MOVE_MESSAGE {
        return (prior, Vec::new());
    }
    let current = extract_bits(packet, 4, 8);
    proof {
        lemma_bits_value_bound(packet@, 4, 8);
        lemma2_to64();
    }
    let current = current as u8;
    let last = match prior {
        None => {
            return (Some(current), Vec::new());
        },
        Some(last) => last,
    };
    let delta: u8 = current.wrapping_sub(last);
    assert(delta as nat == move_delta(last, current));
    let need: usize = 12 + 5 * delta as usize;
    if packet.len() < 161 && need > packet.len() * 8 {
        return (prior, Vec::new());
    }
    assert(slots_fit(packet@, delta as nat));
    let mut moves: Vec<Move> = Vec::new();
    let mut j: usize = 0;
    while j < delta as usize
        invariant
            j <= delta,
            delta as nat == move_delta(last, counter_of(packet@)),
            packet@.len() >= 2,
            slots_fit(packet@, delta as nat),
            moves@ == new_moves(packet@, delta as nat, j as nat),
        decreases delta - j,
    {
        let i: usize = delta as usize - 1 - j;
        let start: usize = 12 + i * 5;
        let code = extract_bits(packet, start, 5);
        match move_from_code(code) {
            Some(m) => moves.push(m),
            None => {},
        }
        assert(i == delta - (j + 1));
        j = j + 1;
    }
    (Some(current), moves)
}

/// The code in slot `i` of a move message.
pub open spec fn slot_code(packet: Seq<u8>, i: int) -> int {
    bits_value(packet, 12 + 5 * i, 5) as int
}

/// Where each of the `delta` newest slots lies inside the packet and holds a
/// code of a move, decoding yields exactly `delta` moves, oldest first: the
/// `j`-th is the move in slot `delta - 1 - j`.
pub proof fn lemma_packed_moves(packet: Seq<u8>, delta: nat)
    requires
        slots_fit(packet, delta),
        forall|i: int| 0 <= i < delta ==> #[trigger] slot_code(packet, i) < 12,
    ensures
        new_moves(packet, delta, delta).len() == delta,
        forall|j: int|
            0 <= j < delta ==> move_of(slot_code(packet, delta - 1 - j)) == Some(
                #[trigger] new_moves(packet, delta, delta)[j],
            ),
{
    lemma_packed_prefix(packet, delta, delta);
}

proof fn lemma_packed_prefix(packet: Seq<u8>, delta: nat, k: nat)
    requires
        k <= delta,
        slots_fit(packet, delta),
        forall|i: int| 0 <= i < delta ==> #[trigger] slot_code(packet, i) < 12,
    ensures
        new_moves(packet, delta, k).len() == k,
        forall|j: int|
            0 <= j < k ==> move_of(slot_code(packet, delta - 1 - j)) == Some(
                #[trigger] new_moves(packet, delta, k)[j],
            ),
    decreases k,
{
    if k > 0 {
        lemma_packed_prefix(packet, delta, (k - 1) as nat);
        let i = delta - k;
        assert(slot_code(packet, i) < 12);
        let prev = new_moves(packet, delta, (k - 1) as nat);
        assert(slot_moves(packet, i).len() == 1);
        assert forall|j: int| 0 <= j < k implies move_of(slot_code(packet, delta - 1 - j)) == Some(
            #[trigger] new_moves(packet, delta, k)[j],
        ) by {
            if j < k - 1 {
                assert(new_moves(packet, delta, k)[j] == prev[j]);
            }
        }
    }
}

} // verus!
