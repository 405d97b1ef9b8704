//! The fixed shape of the telemetry buffers.
//!
//! Every telemetry buffer holds a fixed number of elements for each cell of
//! the batch, and a cell is one nonce of one nibble of one lane. The shape
//! is fixed at startup; no buffer is ever resized.

use vstd::prelude::*;
use crate::constants::{LANES, NIBBLES, NONCES_PER_NIBBLE};

verus! {

/// Cells of one batch: lanes times nibbles times nonces per nibble.
pub const CELLS: usize = 8192;

/// The device-resident arrays that a cycle fills or reads.
#[derive(Clone, Copy, Debug, PartialEq, Eq, Structural)]
pub enum TelemetryBuffer {
    /// Digest words, eight to a cell.
    Digest,
    /// Posterior, one to a cell. Double-buffered.
    Posterior,
    /// Transform value, one to a cell. Double-buffered.
    Transform,
    /// Consensus score, one to a cell. Double-buffered.
    Consensus,
    /// Entropy, one to a cell.
    Entropy,
    /// Per-nibble probabilities, two to a cell.
    NibbleProbabilities,
    /// Feedback from the device, one to a cell.
    Feedback,
    /// Debug flags, one to a cell.
    DebugFlags,
    /// Submit mask, one to a cell.
    SubmitMask,
    /// Chain states of the meet-in-the-middle search, twelve words to a
    /// cell.
    ChainStates,
}

/// Elements that a buffer holds for each cell.
pub open spec fn per_cell_of(buffer: TelemetryBuffer) -> nat {
    match buffer {
        TelemetryBuffer::Digest => 8,
        TelemetryBuffer::NibbleProbabilities => 2,
        TelemetryBuffer::ChainStates => 12,
        _ => 1,
    }
}

/// The place of a cell in a buffer with one element to a cell.
pub open spec fn cell_of(lane: int, nibble: int, nonce: int) -> int {
    (lane * NIBBLES as int + nibble) * NONCES_PER_NIBBLE as int + nonce
}

/// Whether the three coordinates name a cell of the batch.
pub open spec fn is_cell(lane: int, nibble: int, nonce: int) -> bool {
    0 <= lane < LANES && 0 <= nibble < NIBBLES && 0 <= nonce < NONCES_PER_NIBBLE
}

/// The grid of one dispatch: nibbles wide, lanes high, and as deep as a
/// nibble has nonces, one thread to a cell.
pub fn dispatch_grid() -> (grid: (u64, u64, u64))
    ensures
        grid.0 == NIBBLES,
        grid.1 == LANES,
        grid.2 == NONCES_PER_NIBBLE,
        grid.0 * grid.1 * grid.2 == CELLS,
{
    (NIBBLES as u64, LANES as u64, NONCES_PER_NIBBLE as u64)
}

/// Elements that a buffer holds for each cell.
pub fn per_cell(buffer: TelemetryBuffer) -> (n: usize)
    ensures
        n == per_cell_of(buffer),
{
    match buffer {
        TelemetryBuffer::Digest => 8,
        TelemetryBuffer::NibbleProbabilities => 2,
        TelemetryBuffer::ChainStates => 12,
        _ => 1,
    }
}

/// The number of elements of a buffer: a fixed multiple of the number of
/// cells.
pub fn buffer_elements(buffer: TelemetryBuffer) -> (n: usize)
    ensures
        n == per_cell_of(buffer) * CELLS,
        n % CELLS == 0,
{
    let n = per_cell(buffer) * CELLS;
    assert(n % CELLS == 0) by {
        assert(per_cell_of(buffer) == 1 || per_cell_of(buffer) == 2 || per_cell_of(buffer) == 8
            || per_cell_of(buffer) == 12);
    }
    n
}

/// Whether a slice of `len` elements is long enough for a buffer of the
/// batch's shape.
pub fn has_batch_shape(buffer: TelemetryBuffer, len: usize) -> (r: bool)
    ensures
        r == (len >= per_cell_of(buffer) * CELLS),
{
    len >= buffer_elements(buffer)
}

/// The place of a cell in a buffer with one element to a cell, or nothing
/// where the coordinates name no cell.
pub fn cell_index(lane: usize, nibble: usize, nonce: usize) -> (r: Option<usize>)
    ensures
        r is Some <==> is_cell(lane as int, nibble as int, nonce as int),
        r is Some ==> r->Some_0 == cell_of(lane as int, nibble as int, nonce as int)
            && r->Some_0 < CELLS,
{
    if lane < LANES && nibble < NIBBLES && nonce < NONCES_PER_NIBBLE {
        Some((lane * NIBBLES + nibble) * NONCES_PER_NIBBLE + nonce)
    } else {
        None
    }
}

/// Different cells have different places, and every place is within the
/// batch.
pub proof fn lemma_cells_apart(l1: int, n1: int, k1: int, l2: int, n2: int, k2: int)
    requires
        is_cell(l1, n1, k1),
        is_cell(l2, n2, k2),
        cell_of(l1, n1, k1) == cell_of(l2, n2, k2),
    ensures
        l1 == l2,
        n1 == n2,
        k1 == k2,
        0 <= cell_of(l1, n1, k1) < CELLS,
{
}

/// The size in bytes of a buffer of `count` elements of `width` bytes; for
/// a buffer that every thread of a nibble writes, sixteen times that.
pub fn aligned_buffer_bytes(count: usize, width: usize, nibble_threads: bool) -> (bytes: u64)
    requires
        count * width * (if nibble_threads {
            16int
        } else {
            1int
        }) <= usize::MAX,
    ensures
        bytes == count * width * (if nibble_threads {
            16int
        } else {
            1int
        }),
{
    let scale: usize = if nibble_threads {
        16
    } else {
        1
    };
    assert(count * width <= count * width * scale) by (nonlinear_arith)
        requires
            count * width >= 0,
            scale >= 1,
    ;
    (count * width * scale) as u64
}

} // verus!
