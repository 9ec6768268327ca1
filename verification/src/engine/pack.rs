//! Packing of bytes and half-words into 32-bit words, least significant
//! field first.
use vstd::prelude::*;

verus! {

/// The word whose four bytes, from the least significant up, are `b0..b3`.
pub open spec fn word_of_bytes(b0: u8, b1: u8, b2: u8, b3: u8) -> int {
    b0 as int + 0x100 * (b1 as int) + 0x1_0000 * (b2 as int) + 0x100_0000 * (b3 as int)
}

/// The word whose low half is `lo` and whose high half is `hi`.
pub open spec fn word_of_halves(lo: u16, hi: u16) -> int {
    lo as int + 0x1_0000 * (hi as int)
}

/// Byte `i` of `word`, counting from the least significant.
pub open spec fn byte_at(word: u32, i: nat) -> int {
    if i == 0 {
        word as int % 0x100
    } else if i == 1 {
        (word as int / 0x100) % 0x100
    } else if i == 2 {
        (word as int / 0x1_0000) % 0x100
    } else {
        (word as int / 0x100_0000) % 0x100
    }
}

/// The low half-word of `word`.
pub open spec fn low_half(word: u32) -> int {
    word as int % 0x1_0000
}

/// The high half-word of `word`.
pub open spec fn high_half(word: u32) -> int {
    word as int / 0x1_0000
}

/// Packs four bytes into one word, `b0` in the lowest byte.
pub fn pack_bytes(b0: u8, b1: u8, b2: u8, b3: u8) -> (word: u32)
    ensures
        word == word_of_bytes(b0, b1, b2, b3),
{
    let word: u32 = (b0 as u32) | ((b1 as u32) << 8) | ((b2 as u32) << 16) | ((b3 as u32) << 24);
    assert(((b0 as u32) | ((b1 as u32) << 8) | ((b2 as u32) << 16) | ((b3 as u32) << 24)) == (
    b0 as u32) + 0x100 * (b1 as u32) + 0x1_0000 * (b2 as u32) + 0x100_0000 * (b3 as u32))
        by (bit_vector);
    word
}

/// Packs two half-words into one word, `lo` in the low half.
pub fn pack_halves(lo: u16, hi: u16) -> (word: u32)
    ensures
        word == word_of_halves(lo, hi),
{
    let word: u32 = (lo as u32) | ((hi as u32) << 16);
    assert(((lo as u32) | ((hi as u32) << 16)) == (lo as u32) + 0x1_0000 * (hi as u32))
        by (bit_vector);
    word
}

/// Unpacking returns the bytes that were packed: no field overlaps another.
pub proof fn lemma_bytes_round_trip(b0: u8, b1: u8, b2: u8, b3: u8)
    ensures
        0 <= word_of_bytes(b0, b1, b2, b3) <= u32::MAX,
        byte_at(word_of_bytes(b0, b1, b2, b3) as u32, 0) == b0,
        byte_at(word_of_bytes(b0, b1, b2, b3) as u32, 1) == b1,
        byte_at(word_of_bytes(b0, b1, b2, b3) as u32, 2) == b2,
        byte_at(word_of_bytes(b0, b1, b2, b3) as u32, 3) == b3,
{
    let w: u32 = word_of_bytes(b0, b1, b2, b3) as u32;
    let c0: u32 = b0 as u32;
    let c1: u32 = b1 as u32;
    let c2: u32 = b2 as u32;
    let c3: u32 = b3 as u32;
    assert(w == c0 + 0x100 * c1 + 0x1_0000 * c2 + 0x100_0000 * c3);
    assert(w % 0x100 == c0 && (w / 0x100) % 0x100 == c1 && (w / 0x1_0000) % 0x100 == c2 && (w
        / 0x100_0000) % 0x100 == c3) by (bit_vector)
        requires
            w == c0 + 0x100 * c1 + 0x1_0000 * c2 + 0x100_0000 * c3,
            c0 < 0x100,
            c1 < 0x100,
            c2 < 0x100,
            c3 < 0x100,
    ;
}

/// Unpacking returns the half-words that were packed.
pub proof fn lemma_halves_round_trip(lo: u16, hi: u16)
    ensures
        0 <= word_of_halves(lo, hi) <= u32::MAX,
        low_half(word_of_halves(lo, hi) as u32) == lo,
        high_half(word_of_halves(lo, hi) as u32) == hi,
{
    let w: u32 = word_of_halves(lo, hi) as u32;
    let c0: u32 = lo as u32;
    let c1: u32 = hi as u32;
    assert(w == c0 + 0x1_0000 * c1);
    assert(w % 0x1_0000 == c0 && w / 0x1_0000 == c1) by (bit_vector)
        requires
            w == c0 + 0x1_0000 * c1,
            c0 < 0x1_0000,
            c1 < 0x1_0000,
    ;
}

} // verus!
