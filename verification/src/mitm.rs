//! Chain states of the meet-in-the-middle search and their fixed layout in
//! a device buffer of 32-bit words.
//!
//! Layout of one state, in words:
//!   0      low half of the seed
//!   1      high half of the seed
//!   2..10  the value, four bytes to a word, least significant byte first
//!   10     low half of the step count
//!   11     high half of the step count

use vstd::prelude::*;
use crate::words::{
    high_word, join_u64, join_words, le_bytes, le_words, lemma_halves_round_trip,
    lemma_le_bytes_of_value, low_word, split_u64, u32_from_le_bytes, u32_to_le_bytes,
    words_le_bytes,
};

verus! {

/// Number of 32-bit words that one state occupies in a device buffer.
pub const MITM_STATE_U32_WORDS: usize = 12;

/// Number of bytes that one state occupies in a device buffer.
pub const MITM_STATE_BYTES: usize = 48;

/// One chain of the search, as the host holds it.
#[derive(Clone, Copy, Debug, PartialEq, Eq)]
pub struct RhoState {
    /// Identifier of the chain.
    pub seed: u64,
    /// The 32-byte value that the chain has reached.
    pub value: [u8; 32],
    /// Number of steps taken so far.
    pub steps: u64,
}

impl RhoState {
    pub fn new(seed: u64, value: [u8; 32], steps: u64) -> (s: RhoState)
        ensures
            s.seed == seed,
            s.value == value,
            s.steps == steps,
    {
        RhoState { seed, value, steps }
    }

    /// The state with seed 0, an all-zero value and no steps.
    pub fn zero() -> (s: RhoState)
        ensures
            s.seed == 0,
            s.steps == 0,
            s.value@ == Seq::new(32, |i: int| 0u8),
    {
        let s = RhoState { seed: 0, value: [0u8; 32], steps: 0 };
        assert(s.value@ =~= Seq::new(32, |i: int| 0u8));
        s
    }
}

/// The twelve words of one state.
pub open spec fn state_words(s: RhoState) -> Seq<u32> {
    seq![low_word(s.seed), high_word(s.seed)] + le_words(s.value@) + seq![
        low_word(s.steps),
        high_word(s.steps),
    ]
}

/// The words of a run of states, one state after the other.
pub open spec fn serialized(states: Seq<RhoState>) -> Seq<u32> {
    Seq::new(12 * states.len(), |i: int| state_words(states[i / 12])[i % 12])
}

/// Whether `s` is the state that twelve words spell.
pub open spec fn decodes(s: RhoState, words: Seq<u32>) -> bool
    recommends
        words.len() == 12,
{
    &&& s.seed == join_words(words[0], words[1])
    &&& s.value@ == words_le_bytes(words.subrange(2, 10))
    &&& s.steps == join_words(words[10], words[11])
}

/// Whether `states` are the states that `words` spell, twelve words to a
/// state; a tail of fewer than twelve words is ignored.
pub open spec fn deserialized(states: Seq<RhoState>, words: Seq<u32>) -> bool {
    &&& states.len() == words.len() / 12
    &&& forall|i: int|
        0 <= i < states.len() ==> decodes(#[trigger] states[i], words.subrange(12 * i, 12 * i + 12))
}

fn push_state_words(out: &mut Vec<u32>, s: &RhoState)
    ensures
        final(out)@ == old(out)@ + state_words(*s),
{
    let ghost prefix = out@;
    let ghost base = out@.len() as int;
    let (seed_low, seed_high) = split_u64(s.seed);
    out.push(seed_low);
    out.push(seed_high);
    let mut w: usize = 0;
    while w < 8
        invariant
            w <= 8,
            base == prefix.len(),
            out@.len() == base + 2 + w,
            forall|k: int| 0 <= k < base ==> out@[k] == prefix[k],
            out@[base] == low_word(s.seed),
            out@[base + 1] == high_word(s.seed),
            forall|k: int| 0 <= k < w ==> out@[base + 2 + k] == le_words(s.value@)[k],
        decreases 8 - w,
    {
        let word = u32_from_le_bytes(
            s.value[4 * w],
            s.value[4 * w + 1],
            s.value[4 * w + 2],
            s.value[4 * w + 3],
        );
        out.push(word);
        w += 1;
    }
    let (steps_low, steps_high) = split_u64(s.steps);
    out.push(steps_low);
    out.push(steps_high);
    assert(out@ =~= prefix + state_words(*s));
}

/// Lays a run of states out as words, twelve to a state.
pub fn serialize_rho_states_to_u32(states: &[RhoState]) -> (out: Vec<u32>)
    ensures
        out@ == serialized(states@),
{
    let mut out: Vec<u32> = Vec::new();
    let mut i: usize = 0;
    while i < states.len()
        invariant
            i <= states@.len(),
            out@.len() == 12 * i,
            forall|k: int| 0 <= k < 12 * i ==> out@[k] == state_words(states@[k / 12])[k % 12],
        decreases states@.len() - i,
    {
        let ghost before = out@;
        push_state_words(&mut out, &states[i]);
        assert forall|k: int| 0 <= k < 12 * (i + 1) implies out@[k] == state_words(
            states@[k / 12],
        )[k % 12] by {
            if k < 12 * i {
                assert(out@[k] == before[k]);
            } else {
                assert(k / 12 == i as int);
                assert(out@[k] == state_words(states@[i as int])[k - 12 * i]);
            }
        }
        i += 1;
    }
    assert(out@ =~= serialized(states@));
    out
}

/// Reads states back from words, twelve to a state. A tail of fewer than
/// twelve words is ignored.
pub fn deserialize_u32_to_rho_states(slice: &[u32]) -> (out: Vec<RhoState>)
    ensures
        deserialized(out@, slice@),
{
    let mut out: Vec<RhoState> = Vec::new();
    let mut idx: usize = 0;
    while slice.len() - idx >= MITM_STATE_U32_WORDS
        invariant
            idx <= slice@.len(),
            idx == 12 * out@.len(),
            forall|i: int|
                0 <= i < out@.len() ==> decodes(
                    #[trigger] out@[i],
                    slice@.subrange(12 * i, 12 * i + 12),
                ),
        decreases slice@.len() - idx,
    {
        let ghost chunk = slice@.subrange(idx as int, idx + 12);
        let seed = join_u64(slice[idx], slice[idx + 1]);
        let mut value = [0u8; 32];
        let mut w: usize = 0;
        while w < 8
            invariant
                w <= 8,
                idx + 12 <= slice@.len() <= usize::MAX,
                chunk == slice@.subrange(idx as int, idx + 12),
                forall|k: int|
                    0 <= k < 4 * w ==> value@[k] == le_bytes(chunk.subrange(2, 10)[k / 4])[k % 4],
            decreases 8 - w,
        {
            let b = u32_to_le_bytes(slice[idx + 2 + w]);
            assert(chunk.subrange(2, 10)[w as int] == slice@[idx + 2 + w]);
            value[4 * w] = b[0];
            value[4 * w + 1] = b[1];
            value[4 * w + 2] = b[2];
            value[4 * w + 3] = b[3];
            w += 1;
        }
        assert(value@ =~= words_le_bytes(chunk.subrange(2, 10)));
        let steps = join_u64(slice[idx + 10], slice[idx + 11]);
        out.push(RhoState { seed, value, steps });
        idx += MITM_STATE_U32_WORDS;
    }
    out
}

/// States that were laid out as words are read back unchanged.
pub proof fn lemma_round_trip(states: Seq<RhoState>, back: Seq<RhoState>)
    requires
        deserialized(back, serialized(states)),
    ensures
        back == states,
{
    let words = serialized(states);
    assert(back.len() == states.len());
    assert forall|i: int| 0 <= i < states.len() implies back[i] == states[i] by {
        let s = states[i];
        let chunk = words.subrange(12 * i, 12 * i + 12);
        assert(decodes(back[i], chunk));
        assert forall|k: int| 0 <= k < 12 implies chunk[k] == state_words(s)[k] by {
            assert((12 * i + k) / 12 == i);
            assert((12 * i + k) % 12 == k);
        }
        lemma_halves_round_trip(s.seed);
        lemma_halves_round_trip(s.steps);
        assert forall|k: int| 0 <= k < 32 implies back[i].value@[k] == s.value@[k] by {
            let w = k / 4;
            assert(chunk.subrange(2, 10)[w] == state_words(s)[2 + w]);
            assert(state_words(s)[2 + w] == le_words(s.value@)[w]);
            lemma_le_bytes_of_value(
                s.value@[4 * w],
                s.value@[4 * w + 1],
                s.value@[4 * w + 2],
                s.value@[4 * w + 3],
            );
        }
        assert(back[i].value@ =~= s.value@);
        assert(back[i].value =~= s.value);
    }
    assert(back =~= states);
}

/// The size in bytes of a buffer for `count` states, where it fits in 64 bits
/// of byte count.
pub fn mitm_buffer_bytes(count: usize) -> (bytes: Option<u64>)
    ensures
        bytes == (if count * 48 <= u64::MAX {
            Some((count * 48) as u64)
        } else {
            None
        }),
{
    (count as u64).checked_mul(MITM_STATE_BYTES as u64)
}

/// How many words of a serialized run go into a buffer of `buffer_bytes`
/// bytes, and how many words of the buffer are zeroed after them.
pub fn write_plan(serialized_words: usize, buffer_bytes: u64) -> (plan: (usize, usize))
    requires
        buffer_bytes / 4 <= usize::MAX,
    ensures
        plan.0 == (if serialized_words <= buffer_bytes / 4 {
            serialized_words as int
        } else {
            (buffer_bytes / 4) as int
        }),
        plan.0 + plan.1 == buffer_bytes / 4,
{
    let available: usize = (buffer_bytes / 4) as usize;
    let to_copy: usize = if serialized_words <= available {
        serialized_words
    } else {
        available
    };
    (to_copy, available - to_copy)
}

/// How many words to read from a buffer of `buffer_bytes` bytes when `count`
/// states are wanted: twelve for each, as far as the buffer reaches.
pub fn read_plan(buffer_bytes: u64, count: usize) -> (words: usize)
    requires
        buffer_bytes / 4 <= usize::MAX,
    ensures
        words == (if count * 12 <= buffer_bytes / 4 {
            count * 12
        } else {
            (buffer_bytes / 4) as int
        }),
{
    let available: usize = (buffer_bytes / 4) as usize;
    match count.checked_mul(MITM_STATE_U32_WORDS) {
        Some(want) => if want <= available {
            want
        } else {
            available
        },
        None => available,
    }
}

} // verus!
