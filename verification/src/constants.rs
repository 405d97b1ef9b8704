//! The fixed shape of a search batch and related limits.

use vstd::prelude::*;

verus! {

pub const INFLIGHT: usize = 8;

pub const BATCH_SIZE: usize = 65_536;

/// Number of worker threads per lane on the device; divides
/// `NONCES_PER_THREAD`.
pub const THREADS_PER_LANE: usize = 32;

/// Threads of one thread group: one group serves one lane.
pub const THREADS_PER_GROUP: usize = THREADS_PER_LANE;

/// Number of parallel search streams.
pub const LANES: usize = 4;

/// Leading zero bits that make a digest distinguished by its structure.
pub const DP_BITS: usize = 20;

pub const MAX_STEPS: u64 = 1_000_000;

pub const NUM_BUFFERS: usize = 8;

pub const NONCES_PER_THREAD: usize = 512;

/// Words of hash state per lane.
pub const LANES_STATE_WORDS: usize = 8;

/// Sub-partitions of one lane's grid.
pub const NIBBLES: usize = 16;

/// Nonces that one nibble tries in one cycle.
pub const NONCES_PER_NIBBLE: usize = 128;

} // verus!
