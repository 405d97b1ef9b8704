//! Conversions between 32-bit words, 64-bit numbers and bytes, stated as
//! arithmetic.

use vstd::prelude::*;

verus! {

/// The four bytes of a word, least significant first.
pub open spec fn le_bytes(w: u32) -> Seq<u8> {
    seq![
        (w % 0x100) as u8,
        ((w / 0x100) % 0x100) as u8,
        ((w / 0x1_0000) % 0x100) as u8,
        (w / 0x100_0000) as u8,
    ]
}

/// The four bytes of a word, most significant first.
pub open spec fn be_bytes(w: u32) -> Seq<u8> {
    seq![
        (w / 0x100_0000) as u8,
        ((w / 0x1_0000) % 0x100) as u8,
        ((w / 0x100) % 0x100) as u8,
        (w % 0x100) as u8,
    ]
}

/// The number whose bytes, least significant first, are `b0` to `b3`.
pub open spec fn le_value(b0: u8, b1: u8, b2: u8, b3: u8) -> int {
    b0 + b1 * 0x100 + b2 * 0x1_0000 + b3 * 0x100_0000
}

/// The bytes of a run of words, each word least significant byte first.
pub open spec fn words_le_bytes(words: Seq<u32>) -> Seq<u8> {
    Seq::new(4 * words.len(), |i: int| le_bytes(words[i / 4])[i % 4])
}

/// The bytes of a run of words, each word most significant byte first.
pub open spec fn words_be_bytes(words: Seq<u32>) -> Seq<u8> {
    Seq::new(4 * words.len(), |i: int| be_bytes(words[i / 4])[i % 4])
}

/// The bytes of a run read as words, each from four bytes, least significant
/// first; bytes after the last full word are left out.
pub open spec fn le_words(bytes: Seq<u8>) -> Seq<u32> {
    Seq::new(
        bytes.len() / 4,
        |i: int|
            le_value(bytes[4 * i], bytes[4 * i + 1], bytes[4 * i + 2], bytes[4 * i + 3]) as u32,
    )
}

/// The low half of a 64-bit number.
pub open spec fn low_word(x: u64) -> u32 {
    (x % 0x1_0000_0000) as u32
}

/// The high half of a 64-bit number.
pub open spec fn high_word(x: u64) -> u32 {
    (x / 0x1_0000_0000) as u32
}

/// The 64-bit number with these halves.
pub open spec fn join_words(low: u32, high: u32) -> u64 {
    (low + high * 0x1_0000_0000) as u64
}

proof fn lemma_le_parts(w: u32)
    by (bit_vector)
    ensures
        (w & 0xff) == w % 0x100,
        ((w >> 8) & 0xff) == (w / 0x100) % 0x100,
        ((w >> 16) & 0xff) == (w / 0x1_0000) % 0x100,
        (w >> 24) == w / 0x100_0000,
        (w >> 24) < 0x100,
{
}

proof fn lemma_le_join(b0: u8, b1: u8, b2: u8, b3: u8)
    by (bit_vector)
    ensures
        ((b0 as u32) | (b1 as u32) << 8 | (b2 as u32) << 16 | (b3 as u32) << 24) == b0 + b1 * 0x100
            + b2 * 0x1_0000 + b3 * 0x100_0000,
{
}

proof fn lemma_le_split(b0: u8, b1: u8, b2: u8, b3: u8)
    by (bit_vector)
    ensures
        ({
            let w = (b0 as u32) | (b1 as u32) << 8 | (b2 as u32) << 16 | (b3 as u32) << 24;
            &&& w % 0x100 == b0
            &&& (w / 0x100) % 0x100 == b1
            &&& (w / 0x1_0000) % 0x100 == b2
            &&& w / 0x100_0000 == b3
        }),
{
}

proof fn lemma_halves(x: u64)
    by (bit_vector)
    ensures
        (x & 0xffff_ffff) == x % 0x1_0000_0000,
        (x >> 32) == x / 0x1_0000_0000,
        (x >> 32) < 0x1_0000_0000,
{
}

proof fn lemma_join(low: u32, high: u32)
    by (bit_vector)
    ensures
        ((low as u64) | ((high as u64) << 32)) == low + high * 0x1_0000_0000,
{
}

/// A word is the number that its little-endian bytes spell.
pub proof fn lemma_le_round_trip(w: u32)
    ensures
        le_value(le_bytes(w)[0], le_bytes(w)[1], le_bytes(w)[2], le_bytes(w)[3]) == w,
{
}

/// Four bytes are the little-endian bytes of the number that they spell.
pub proof fn lemma_le_bytes_of_value(b0: u8, b1: u8, b2: u8, b3: u8)
    ensures
        0 <= le_value(b0, b1, b2, b3) <= u32::MAX,
        le_bytes(le_value(b0, b1, b2, b3) as u32) == seq![b0, b1, b2, b3],
{
    lemma_le_join(b0, b1, b2, b3);
    lemma_le_split(b0, b1, b2, b3);
    let w = le_value(b0, b1, b2, b3) as u32;
    assert(le_bytes(w) =~= seq![b0, b1, b2, b3]);
}

/// A 64-bit number is the join of its halves.
pub proof fn lemma_halves_round_trip(x: u64)
    ensures
        join_words(low_word(x), high_word(x)) == x,
{
}

pub fn u32_to_le_bytes(w: u32) -> (b: [u8; 4])
    ensures
        b@ == le_bytes(w),
{
    proof {
        lemma_le_parts(w);
    }
    let b = [(w & 0xff) as u8, ((w >> 8) & 0xff) as u8, ((w >> 16) & 0xff) as u8, (w >> 24) as u8];
    assert(b@ =~= le_bytes(w));
    b
}

pub fn u32_to_be_bytes(w: u32) -> (b: [u8; 4])
    ensures
        b@ == be_bytes(w),
{
    proof {
        lemma_le_parts(w);
    }
    let b = [(w >> 24) as u8, ((w >> 16) & 0xff) as u8, ((w >> 8) & 0xff) as u8, (w & 0xff) as u8];
    assert(b@ =~= be_bytes(w));
    b
}

pub fn u32_from_le_bytes(b0: u8, b1: u8, b2: u8, b3: u8) -> (w: u32)
    ensures
        w == le_value(b0, b1, b2, b3),
{
    proof {
        lemma_le_join(b0, b1, b2, b3);
    }
    (b0 as u32) | (b1 as u32) << 8 | (b2 as u32) << 16 | (b3 as u32) << 24
}

pub fn split_u64(x: u64) -> (halves: (u32, u32))
    ensures
        halves.0 == low_word(x),
        halves.1 == high_word(x),
{
    proof {
        lemma_halves(x);
    }
    ((x & 0xffff_ffff) as u32, (x >> 32) as u32)
}

pub fn join_u64(low: u32, high: u32) -> (x: u64)
    ensures
        x == join_words(low, high),
{
    proof {
        lemma_join(low, high);
    }
    (low as u64) | ((high as u64) << 32)
}

/// The first 32 bytes of a run of at least eight words, each word least
/// significant byte first.
pub fn digest_le_bytes(words: &[u32]) -> (value: [u8; 32])
    requires
        words@.len() >= 8,
    ensures
        value@ == words_le_bytes(words@.subrange(0, 8)),
{
    let mut value = [0u8; 32];
    let mut i: usize = 0;
    while i < 8
        invariant
            i <= 8,
            words@.len() >= 8,
            forall|k: int| 0 <= k < 4 * i ==> value@[k] == le_bytes(words@[k / 4])[k % 4],
        decreases 8 - i,
    {
        let b = u32_to_le_bytes(words[i]);
        value[4 * i] = b[0];
        value[4 * i + 1] = b[1];
        value[4 * i + 2] = b[2];
        value[4 * i + 3] = b[3];
        i += 1;
    }
    assert(value@ =~= words_le_bytes(words@.subrange(0, 8)));
    value
}

/// The first 32 bytes of eight words, each word most significant byte first.
pub fn digest_be_bytes(words: &[u32; 8]) -> (value: [u8; 32])
    ensures
        value@ == words_be_bytes(words@),
{
    let mut value = [0u8; 32];
    let mut i: usize = 0;
    while i < 8
        invariant
            i <= 8,
            forall|k: int| 0 <= k < 4 * i ==> value@[k] == be_bytes(words@[k / 4])[k % 4],
        decreases 8 - i,
    {
        let b = u32_to_be_bytes(words[i]);
        value[4 * i] = b[0];
        value[4 * i + 1] = b[1];
        value[4 * i + 2] = b[2];
        value[4 * i + 3] = b[3];
        i += 1;
    }
    assert(value@ =~= words_be_bytes(words@));
    value
}

} // verus!
