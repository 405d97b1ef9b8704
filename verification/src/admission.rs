//! Admission of one cycle's lane results to the table of distinguished
//! points and to the lanes' candidate queues.

use vstd::prelude::*;
use crate::binary32::Binary32;
use crate::constants::DP_BITS;
use crate::dp_table::{
    after_insert, digest_point, is_digest_point, leading_zero_bits, CandidateDP, DPTable,
    DistinguishedPoint,
};
use crate::ranking::{
    all_entries, batch_bytes, lane_batch, lane_batch_bytes, partition_by_lane, rank_globally, ranked,
    CandidateQueue, HeapEntry, BASE_TOP_N,
};
use crate::words::words_le_bytes;

verus! {

/// Bit pattern of the least entropy at which a lane is considered: the
/// binary32 number nearest to 15 hundredths.
pub const ENTROPY_FLOOR_BITS: u32 = 0x3e19_999a;

/// Distance in words between the digests of two neighbouring lanes in the
/// digest buffer: eight words for each of a lane's 512 nonces.
pub const LANE_DIGEST_STRIDE: usize = 4096;

/// What the host has measured of one lane in one cycle.
#[derive(Clone, Copy, Debug)]
pub struct LaneSignal {
    /// The lane's measured entropy.
    pub entropy: Binary32,
    /// The lane's probability score.
    pub probability: Binary32,
    /// Ten times the entropy, rounded down: the places that the lane's
    /// queue has beyond the base.
    pub bonus: usize,
}

/// The eight digest words of a lane.
pub open spec fn lane_digest(digest: Seq<u32>, lane: int) -> Seq<u32> {
    digest.subrange(lane * LANE_DIGEST_STRIDE as int, lane * LANE_DIGEST_STRIDE as int + 8)
}

/// The structural test: the value has `DP_BITS` leading zero bits or more.
pub open spec fn structurally_distinguished(value: Seq<u8>) -> bool {
    leading_zero_bits(value) >= DP_BITS
}

/// Whether a lane's result is admitted. The lane must be considered at
/// all: its entropy is a number not below the floor. Its probability must be
/// a number. Then either test qualifies: the structural one, or a
/// probability that is not below the threshold.
pub open spec fn admits(signal: LaneSignal, value: Seq<u8>, threshold: Binary32) -> bool {
    &&& (Binary32 { bits: ENTROPY_FLOOR_BITS }).at_most(signal.entropy)
    &&& !signal.probability.nan()
    &&& (structurally_distinguished(value) || threshold.at_most(signal.probability))
}

/// Whether lane `lane` of this cycle is admitted.
pub open spec fn lane_admitted(
    signals: Seq<LaneSignal>,
    digest: Seq<u32>,
    threshold: Binary32,
    lane: int,
) -> bool {
    admits(signals[lane], words_le_bytes(lane_digest(digest, lane)), threshold)
}

/// The point that a lane offers: the point of its digest with the lane's
/// probability.
pub open spec fn lane_point(signals: Seq<LaneSignal>, digest: Seq<u32>, lane: int) -> DistinguishedPoint {
    digest_point(lane_digest(digest, lane), signals[lane].probability)
}

/// Whether a lane's point is what its name says: its value is the lane's
/// digest, its seed and step count are zero, and its probability is the
/// lane's.
pub open spec fn lane_point_known(signals: Seq<LaneSignal>, digest: Seq<u32>, lane: int) -> bool {
    is_digest_point(
        lane_point(signals, digest, lane),
        lane_digest(digest, lane),
        signals[lane].probability,
    )
}

/// What the table holds after the first `n` lanes were gone through in
/// order, each admitted lane offering the point of its digest.
pub open spec fn table_after_lanes(
    entries: Seq<DistinguishedPoint>,
    capacity: nat,
    signals: Seq<LaneSignal>,
    digest: Seq<u32>,
    threshold: Binary32,
    n: nat,
) -> Seq<DistinguishedPoint>
    decreases n,
{
    if n == 0 {
        entries
    } else {
        let lane = (n - 1) as int;
        let before = table_after_lanes(entries, capacity, signals, digest, threshold, (n - 1) as nat);
        if lane_admitted(signals, digest, threshold, lane) {
            after_insert(before, capacity, lane_point(signals, digest, lane))
        } else {
            before
        }
    }
}

/// Whether `e` is the queue entry of a lane's digest.
pub open spec fn is_lane_entry(
    e: HeapEntry,
    lane: int,
    words: Seq<u32>,
    probability: Binary32,
) -> bool {
    &&& e.lane == lane
    &&& e.probability == probability
    &&& e.dp.value@ == words_le_bytes(words)
    &&& e.dp.seed == 0
    &&& e.dp.steps == 0
    &&& e.dp.probability == probability
}

/// Whether `queue` is what lane `lane` has queued after one cycle: its own
/// entry if the lane was admitted, nothing otherwise, in a queue with the
/// base places and the lane's bonus.
pub open spec fn is_lane_queue(
    queue: CandidateQueue,
    signals: Seq<LaneSignal>,
    digest: Seq<u32>,
    threshold: Binary32,
    lane: int,
) -> bool {
    &&& queue.wf()
    &&& queue.capacity() == BASE_TOP_N + signals[lane].bonus
    &&& if lane_admitted(signals, digest, threshold, lane) {
        &&& queue@.len() == 1
        &&& is_lane_entry(queue@[0], lane, lane_digest(digest, lane), signals[lane].probability)
    } else {
        queue@.len() == 0
    }
}

/// Decides for one lane whether its result is admitted.
pub fn qualifies(signal: &LaneSignal, point: &DistinguishedPoint, threshold: Binary32) -> (r: bool)
    ensures
        r == admits(*signal, point.value@, threshold),
{
    let floor = Binary32::from_bits(ENTROPY_FLOOR_BITS);
    if !floor.le(signal.entropy) {
        return false;
    }
    if signal.probability.is_nan() {
        return false;
    }
    point.is_distinguished(DP_BITS) || threshold.le(signal.probability)
}

/// Goes through one cycle's lanes in order. Each admitted lane offers the
/// point of its digest to the table and puts it into its own queue.
/// Returns the lanes' queues.
pub fn admit_lanes(
    table: &mut DPTable,
    signals: &[LaneSignal],
    digest: &[u32],
    threshold: Binary32,
) -> (queues: Vec<CandidateQueue>)
    requires
        old(table).wf(),
        signals@.len() * LANE_DIGEST_STRIDE <= digest@.len(),
        forall|l: int| 0 <= l < signals@.len() ==> BASE_TOP_N + (#[trigger] signals@[l]).bonus
            <= usize::MAX,
    ensures
        final(table).wf(),
        final(table).capacity() == old(table).capacity(),
        final(table)@ == table_after_lanes(
            old(table)@,
            old(table).capacity(),
            signals@,
            digest@,
            threshold,
            signals@.len(),
        ),
        forall|l: int|
            0 <= l < signals@.len() ==> #[trigger] lane_point_known(signals@, digest@, l),
        queues@.len() == signals@.len(),
        forall|l: int|
            0 <= l < signals@.len() ==> is_lane_queue(
                #[trigger] queues@[l],
                signals@,
                digest@,
                threshold,
                l,
            ),
{
    let mut queues: Vec<CandidateQueue> = Vec::new();
    let mut lane: usize = 0;
    let digest_len: usize = digest.len();
    while lane < signals.len()
        invariant
            lane <= signals@.len(),
            digest_len == digest@.len(),
            signals@.len() * LANE_DIGEST_STRIDE <= digest_len,
            forall|l: int| 0 <= l < signals@.len() ==> BASE_TOP_N + (#[trigger] signals@[l]).bonus
                <= usize::MAX,
            table.wf(),
            table.capacity() == old(table).capacity(),
            table@ == table_after_lanes(
                old(table)@,
                old(table).capacity(),
                signals@,
                digest@,
                threshold,
                lane as nat,
            ),
            forall|l: int| 0 <= l < lane ==> #[trigger] lane_point_known(signals@, digest@, l),
            queues@.len() == lane,
            forall|l: int|
                0 <= l < lane ==> is_lane_queue(
                    #[trigger] queues@[l],
                    signals@,
                    digest@,
                    threshold,
                    l,
                ),
        decreases signals@.len() - lane,
    {
        let signal = signals[lane];
        let start: usize = lane * LANE_DIGEST_STRIDE;
        let words = vstd::slice::slice_subrange(digest, start, start + 8);
        assert(words@ == lane_digest(digest@, lane as int));
        assert(words@.subrange(0, 8) =~= words@);
        let value = crate::words::digest_le_bytes(words);
        let point = DistinguishedPoint { value, seed: 0, steps: 0, probability: signal.probability };
        let mut queue = CandidateQueue::for_lane(signal.bonus);
        proof {
            crate::dp_table::lemma_digest_point_unique(point, words@, signal.probability);
            assert(lane_point_known(signals@, digest@, lane as int));
        }
        if qualifies(&signal, &point, threshold) {
            table.insert_and_check(point);
            queue.insert(
                HeapEntry {
                    probability: signal.probability,
                    lane,
                    dp: CandidateDP { value, seed: 0, steps: 0, probability: signal.probability },
                },
            );
        }
        queues.push(queue);
        lane += 1;
    }
    queues
}

/// Takes one cycle's lane results: admits lanes to the table and to their
/// queues, ranks everything queued over all lanes, splits the ranking up by
/// lane again, and lays each lane's candidates out as the bytes that go to
/// the lane's device buffer. Returns the queues and, lane by lane, those
/// bytes.
pub fn update_dp_table_from_gpu(
    table: &mut DPTable,
    signals: &[LaneSignal],
    digest: &[u32],
    threshold: Binary32,
) -> (r: (Vec<CandidateQueue>, Vec<Vec<u8>>))
    requires
        old(table).wf(),
        signals@.len() * LANE_DIGEST_STRIDE <= digest@.len(),
        forall|l: int| 0 <= l < signals@.len() ==> BASE_TOP_N + (#[trigger] signals@[l]).bonus
            <= usize::MAX,
    ensures
        final(table).wf(),
        final(table).capacity() == old(table).capacity(),
        final(table)@ == table_after_lanes(
            old(table)@,
            old(table).capacity(),
            signals@,
            digest@,
            threshold,
            signals@.len(),
        ),
        forall|l: int|
            0 <= l < signals@.len() ==> #[trigger] lane_point_known(signals@, digest@, l),
        r.0@.len() == signals@.len(),
        forall|l: int|
            0 <= l < signals@.len() ==> is_lane_queue(
                #[trigger] r.0@[l],
                signals@,
                digest@,
                threshold,
                l,
            ),
        r.1@.len() == signals@.len(),
        forall|l: int|
            0 <= l < signals@.len() ==> (#[trigger] r.1@[l])@ == batch_bytes(
                lane_batch(ranked(all_entries(r.0@)), l),
            ),
{
    let queues = admit_lanes(table, signals, digest, threshold);
    let global = rank_globally(queues.as_slice());
    let batches = partition_by_lane(&global, signals.len());
    let mut bytes: Vec<Vec<u8>> = Vec::new();
    let mut lane: usize = 0;
    while lane < batches.len()
        invariant
            lane <= batches@.len(),
            batches@.len() == signals@.len(),
            global@ == ranked(all_entries(queues@)),
            forall|l: int|
                0 <= l < batches@.len() ==> (#[trigger] batches@[l])@ == lane_batch(global@, l),
            bytes@.len() == lane,
            forall|l: int|
                0 <= l < lane ==> (#[trigger] bytes@[l])@ == batch_bytes(lane_batch(global@, l)),
        decreases batches@.len() - lane,
    {
        let laid_out = lane_batch_bytes(batches[lane].as_slice());
        bytes.push(laid_out);
        lane += 1;
    }
    (queues, bytes)
}

} // verus!
