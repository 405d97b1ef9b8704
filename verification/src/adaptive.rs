//! The feedback coordinator's pacing and bounds, and the metrics that the
//! search publishes.
//!
//! The coordinator runs on its own cadence beside the main cycle loop. What
//! it computes from telemetry is floating-point work and belongs to its
//! caller; when it samples, which snapshot it takes, when it publishes, and
//! between which bounds a tuned parameter may lie is decided here.

use vstd::prelude::*;
use std::time::Instant;
use crate::binary32::Binary32;
use crate::binary64::Binary64;
use crate::constants::LANES;

verus! {

/// A reading of the monotonic clock. Opaque: nothing is known of its value.
#[verifier::external_type_specification]
#[verifier::external_body]
pub struct ExInstant(Instant);

/// `Clone::clone` of `std::time::Instant`, a `Copy` type: the clone is the
/// reading itself.
pub assume_specification[ <Instant as Clone>::clone ](instant: &Instant) -> (r: Instant)
    ensures
        r == *instant,
;

/// Calls `std::time::Instant::now` and returns the clock's current reading.
/// Nothing is claimed of that reading.
#[verifier::external_body]
fn clock_now() -> Instant {
    Instant::now()
}

/// One snapshot of what the search reports. Scalars are binary32 numbers
/// unless said otherwise.
#[derive(Clone, Debug)]
pub struct MinerMetrics {
    pub mask: Binary32,
    pub prune: Binary32,
    pub gain: Binary32,
    /// The coherence scalar.
    pub entanglement: Binary32,
    /// Average posterior of each lane.
    pub avg_post: Vec<Binary32>,
    /// Average transform value of each lane.
    pub avg_fwht: Vec<Binary32>,
    pub adaptive_factor: Binary32,
    /// Average consensus score of each lane.
    pub avg_cs: Vec<Binary32>,
    /// The diagnostic grid.
    pub nibble_tree: [[u32; 4]; 4],
    pub hashrate_mhs: Binary32,
    pub total_hashes: u64,
    /// When the snapshot was taken.
    pub timestamp: Instant,
    pub last_hashrate: Binary32,
    /// Device time of the last cycle, a binary64 number.
    pub last_gpu_time: Binary64,
    /// Wall time of the last cycle, a binary64 number.
    pub last_cycle_time: Binary64,
    pub last_debug_flags: Vec<u32>,
}

impl MinerMetrics {
    /// Whether every scalar is zero, every list empty and every cell of the
    /// grid zero.
    pub open spec fn is_blank(&self) -> bool {
        &&& self.mask.bits == 0
        &&& self.prune.bits == 0
        &&& self.gain.bits == 0
        &&& self.entanglement.bits == 0
        &&& self.avg_post@.len() == 0
        &&& self.avg_fwht@.len() == 0
        &&& self.adaptive_factor.bits == 0
        &&& self.avg_cs@.len() == 0
        &&& forall|i: int, j: int| 0 <= i < 4 && 0 <= j < 4 ==> self.nibble_tree@[i]@[j] == 0
        &&& self.hashrate_mhs.bits == 0
        &&& self.total_hashes == 0
        &&& self.last_hashrate.bits == 0
        &&& self.last_gpu_time.bits == 0
        &&& self.last_cycle_time.bits == 0
        &&& self.last_debug_flags@.len() == 0
    }
}

impl Default for MinerMetrics {
    /// The blank snapshot, stamped with the clock's current reading.
    fn default() -> (m: MinerMetrics)
        ensures
            m.is_blank(),
    {
        let zero = Binary32::from_bits(0);
        MinerMetrics {
            mask: zero,
            prune: zero,
            gain: zero,
            entanglement: zero,
            avg_post: Vec::new(),
            avg_fwht: Vec::new(),
            adaptive_factor: zero,
            avg_cs: Vec::new(),
            nibble_tree: [[0u32; 4]; 4],
            hashrate_mhs: zero,
            total_hashes: 0,
            timestamp: clock_now(),
            last_hashrate: zero,
            last_gpu_time: Binary64::from_bits(0),
            last_cycle_time: Binary64::from_bits(0),
            last_debug_flags: Vec::new(),
        }
    }
}

/// What goes to the status display.
#[derive(Clone, Debug)]
pub enum UiMessage {
    Status(String),
    Metrics(MinerMetrics),
}

/// The level of a lane, or zero where the lane has none.
pub open spec fn level_of(levels: Seq<u32>, lane: int) -> u32 {
    if 0 <= lane < levels.len() {
        levels[lane]
    } else {
        0
    }
}

/// The cell of the diagnostic grid in row `i` and column `j`: the posterior
/// level of lane `i` and the transform level of lane `j`, lanes counted
/// round, added with wrap-around.
pub open spec fn grid_cell(posterior: Seq<u32>, transform: Seq<u32>, i: int, j: int) -> u32 {
    vstd::wrapping::u32_specs::wrapping_add(
        level_of(posterior, i % LANES as int),
        level_of(transform, j % LANES as int),
    )
}

fn level_at(levels: &[u32], lane: usize) -> (r: u32)
    ensures
        r == level_of(levels@, lane as int),
{
    if lane < levels.len() {
        levels[lane]
    } else {
        0
    }
}

/// The diagnostic grid of a cycle, from the lanes' posterior and transform
/// levels.
pub fn diagnostic_grid(posterior: &[u32], transform: &[u32]) -> (grid: [[u32; 4]; 4])
    ensures
        forall|i: int, j: int|
            0 <= i < 4 && 0 <= j < 4 ==> #[trigger] grid@[i]@[j] == grid_cell(
                posterior@,
                transform@,
                i,
                j,
            ),
{
    let mut grid = [[0u32; 4]; 4];
    let mut i: usize = 0;
    while i < 4
        invariant
            i <= 4,
            forall|a: int, b: int|
                0 <= a < i && 0 <= b < 4 ==> #[trigger] grid@[a]@[b] == grid_cell(
                    posterior@,
                    transform@,
                    a,
                    b,
                ),
        decreases 4 - i,
    {
        let mut row = [0u32; 4];
        let mut j: usize = 0;
        while j < 4
            invariant
                j <= 4,
                i < 4,
                forall|b: int|
                    0 <= b < j ==> #[trigger] row@[b] == grid_cell(
                        posterior@,
                        transform@,
                        i as int,
                        b,
                    ),
            decreases 4 - j,
        {
            let p = level_at(posterior, i % LANES);
            let t = level_at(transform, j % LANES);
            row[j] = p.wrapping_add(t);
            j += 1;
        }
        grid[i] = row;
        i += 1;
    }
    grid
}

/// Milliseconds between two polls of the telemetry.
pub const POLL_INTERVAL_MS: u64 = 250;

/// Milliseconds between two published snapshots, at least.
pub const PUBLISH_INTERVAL_MS: u64 = 1000;

/// Milliseconds to wait when no telemetry is registered yet.
pub const IDLE_INTERVAL_MS: u64 = 1000;

/// Bit pattern of the least value of a tuned parameter: the binary32 number
/// nearest to one thousandth.
pub const PARAMETER_MIN_BITS: u32 = 0x3a83_126f;

/// Bit pattern of the greatest value of a tuned parameter: one.
pub const PARAMETER_MAX_BITS: u32 = 0x3f80_0000;

/// Bit pattern of the least value that the pruning pass leaves a parameter:
/// the binary32 number nearest to one hundredth.
pub const PRUNING_MIN_BITS: u32 = 0x3c23_d70a;

/// Bit pattern above which an average weight narrows the mask: the binary32
/// number nearest to five hundredths.
pub const MASK_NARROW_BITS: u32 = 0x3d4c_cccd;

/// Bit pattern below which an average weight widens the mask: the binary32
/// number nearest to one hundredth.
pub const MASK_WIDEN_BITS: u32 = 0x3c23_d70a;

/// The three parameters that the coordinator tunes.
#[derive(Clone, Copy, Debug)]
pub struct AdaptiveParameters {
    pub mask: Binary32,
    pub prune: Binary32,
    pub gain: Binary32,
}

/// A parameter held to the bounds `lo` and `hi`.
pub open spec fn bounded(p: Binary32, lo: u32, hi: u32) -> Binary32 {
    if p.below(Binary32 { bits: lo }) {
        Binary32 { bits: lo }
    } else if (Binary32 { bits: hi }).below(p) {
        Binary32 { bits: hi }
    } else {
        p
    }
}

/// Whether a number lies between the bounds `lo` and `hi`.
pub open spec fn within(p: Binary32, lo: u32, hi: u32) -> bool {
    (Binary32 { bits: lo }).at_most(p) && p.at_most(Binary32 { bits: hi })
}

/// Holds each smoothed parameter to the interval from a thousandth to one.
/// A parameter that is no number stays as it is.
pub fn clamp_parameters(p: AdaptiveParameters) -> (r: AdaptiveParameters)
    ensures
        r.mask == bounded(p.mask, PARAMETER_MIN_BITS, PARAMETER_MAX_BITS),
        r.prune == bounded(p.prune, PARAMETER_MIN_BITS, PARAMETER_MAX_BITS),
        r.gain == bounded(p.gain, PARAMETER_MIN_BITS, PARAMETER_MAX_BITS),
        !p.mask.nan() ==> within(r.mask, PARAMETER_MIN_BITS, PARAMETER_MAX_BITS),
        !p.prune.nan() ==> within(r.prune, PARAMETER_MIN_BITS, PARAMETER_MAX_BITS),
        !p.gain.nan() ==> within(r.gain, PARAMETER_MIN_BITS, PARAMETER_MAX_BITS),
{
    let lo = Binary32::from_bits(PARAMETER_MIN_BITS);
    let hi = Binary32::from_bits(PARAMETER_MAX_BITS);
    AdaptiveParameters {
        mask: p.mask.clamp(lo, hi),
        prune: p.prune.clamp(lo, hi),
        gain: p.gain.clamp(lo, hi),
    }
}

/// Holds each parameter that the pruning pass has blended with the device's
/// feedback to the interval from a hundredth to one.
pub fn clamp_pruned(p: AdaptiveParameters) -> (r: AdaptiveParameters)
    ensures
        r.mask == bounded(p.mask, PRUNING_MIN_BITS, PARAMETER_MAX_BITS),
        r.prune == bounded(p.prune, PRUNING_MIN_BITS, PARAMETER_MAX_BITS),
        r.gain == bounded(p.gain, PRUNING_MIN_BITS, PARAMETER_MAX_BITS),
        !p.mask.nan() ==> within(r.mask, PRUNING_MIN_BITS, PARAMETER_MAX_BITS),
        !p.prune.nan() ==> within(r.prune, PRUNING_MIN_BITS, PARAMETER_MAX_BITS),
        !p.gain.nan() ==> within(r.gain, PRUNING_MIN_BITS, PARAMETER_MAX_BITS),
{
    let lo = Binary32::from_bits(PRUNING_MIN_BITS);
    let hi = Binary32::from_bits(PARAMETER_MAX_BITS);
    AdaptiveParameters {
        mask: p.mask.clamp(lo, hi),
        prune: p.prune.clamp(lo, hi),
        gain: p.gain.clamp(lo, hi),
    }
}

/// Holding a parameter to its bounds a second time changes nothing, and a
/// parameter within the bounds is left as it is.
pub proof fn lemma_bounded_is_stable(p: Binary32, lo: u32, hi: u32)
    requires
        (Binary32 { bits: lo }).at_most(Binary32 { bits: hi }),
    ensures
        bounded(bounded(p, lo, hi), lo, hi) == bounded(p, lo, hi),
        within(p, lo, hi) ==> bounded(p, lo, hi) == p,
        !p.nan() ==> within(bounded(p, lo, hi), lo, hi),
{
}

/// Polls with cycles in flight that a hand-off puts up with before it is
/// overdue.
pub const HAND_OFF_PATIENCE: u32 = 8;

/// The hand-off of tuned parameters from the coordinator to the cycle
/// loop. The device reads the parameters while a cycle runs, so the
/// coordinator does not write them itself: it leaves them here, and the
/// cycle loop takes them out between cycles. Of several vectors left since
/// the last hand-off the latest counts. A loop that keeps the device busy
/// would never find the moment: once it has asked in vain as often as the
/// hand-off has patience, the hand-off is overdue, and the loop is to let
/// the cycles in flight run out before it submits another.
pub struct ParameterHandOff {
    pending: Option<AdaptiveParameters>,
    deferred: u32,
}

impl ParameterHandOff {
    /// The parameters waiting to be written, if any.
    pub closed spec fn waiting(&self) -> Option<AdaptiveParameters> {
        self.pending
    }

    /// How often the waiting parameters were asked for in vain, counted up
    /// to the hand-off's patience.
    pub closed spec fn deferrals(&self) -> nat {
        self.deferred as nat
    }

    /// The hand-off's invariant.
    pub open spec fn wf(&self) -> bool {
        self.deferrals() <= HAND_OFF_PATIENCE
    }

    /// Whether parameters have waited longer than the hand-off has
    /// patience.
    pub open spec fn is_overdue(&self) -> bool {
        self.waiting() is Some && self.deferrals() >= HAND_OFF_PATIENCE
    }

    pub fn new() -> (h: ParameterHandOff)
        ensures
            h.wf(),
            h.waiting() is None,
            h.deferrals() == 0,
    {
        ParameterHandOff { pending: None, deferred: 0 }
    }

    /// Leaves a parameter vector for the cycle loop.
    pub fn submit(&mut self, parameters: AdaptiveParameters)
        requires
            old(self).wf(),
        ensures
            final(self).wf(),
            final(self).waiting() == Some(parameters),
            final(self).deferrals() == old(self).deferrals(),
    {
        self.pending = Some(parameters);
    }

    /// Takes out the waiting parameters if no cycle is in flight. While
    /// cycles are in flight nothing is handed over; waiting parameters then
    /// count one more deferral, up to the hand-off's patience.
    pub fn take_between_cycles(&mut self, cycles_in_flight: usize) -> (r: Option<
        AdaptiveParameters,
    >)
        requires
            old(self).wf(),
        ensures
            final(self).wf(),
            (r, final(self).waiting(), final(self).deferrals()) == take_result(
                old(self).waiting(),
                old(self).deferrals(),
                cycles_in_flight as nat,
            ),
    {
        if cycles_in_flight == 0 {
            let taken = self.pending;
            self.pending = None;
            self.deferred = 0;
            taken
        } else {
            if self.pending.is_some() && self.deferred < HAND_OFF_PATIENCE {
                self.deferred = self.deferred + 1;
            }
            None
        }
    }

    /// Whether the cycle loop is to let the cycles in flight run out, so
    /// that the waiting parameters can be handed over.
    pub fn overdue(&self) -> (r: bool)
        ensures
            r == self.is_overdue(),
    {
        self.pending.is_some() && self.deferred >= HAND_OFF_PATIENCE
    }
}

/// What a poll gives and leaves: the parameters handed over, the
/// parameters still waiting, and the deferrals counted.
pub open spec fn take_result(
    waiting: Option<AdaptiveParameters>,
    deferrals: nat,
    cycles_in_flight: nat,
) -> (Option<AdaptiveParameters>, Option<AdaptiveParameters>, nat) {
    if cycles_in_flight == 0 {
        (waiting, None, 0)
    } else if waiting is Some && deferrals < HAND_OFF_PATIENCE {
        (None, waiting, deferrals + 1)
    } else {
        (None, waiting, deferrals)
    }
}

/// The deferrals counted after a run of polls that all found cycles in
/// flight.
pub open spec fn deferrals_after(
    waiting: Option<AdaptiveParameters>,
    deferrals: nat,
    polls: nat,
) -> nat
    decreases polls,
{
    if polls == 0 {
        deferrals
    } else {
        take_result(waiting, deferrals_after(waiting, deferrals, (polls - 1) as nat), 1).2
    }
}

/// Parameters that wait are overdue once as many polls as the hand-off has
/// patience have found cycles in flight, and stay overdue; the first poll
/// that then finds none hands them over.
pub proof fn lemma_overdue_after_patience(
    waiting: Option<AdaptiveParameters>,
    deferrals: nat,
    polls: nat,
)
    requires
        waiting is Some,
        deferrals <= HAND_OFF_PATIENCE,
    ensures
        deferrals_after(waiting, deferrals, polls) == (if deferrals + polls <= HAND_OFF_PATIENCE {
            deferrals + polls
        } else {
            HAND_OFF_PATIENCE as nat
        }),
        polls >= HAND_OFF_PATIENCE ==> deferrals_after(waiting, deferrals, polls)
            == HAND_OFF_PATIENCE,
        take_result(waiting, deferrals_after(waiting, deferrals, polls), 0).0 == waiting,
    decreases polls,
{
    if polls > 0 {
        lemma_overdue_after_patience(waiting, deferrals, (polls - 1) as nat);
    }
}

/// What the coordinator does in one iteration.
#[derive(Clone, Copy, Debug, PartialEq, Eq, Structural)]
pub enum CoordinatorStep {
    /// No telemetry is registered: wait and look again.
    Idle { sleep_ms: u64 },
    /// Sample the snapshot `index`, smooth the parameters and hand them
    /// over, publish a metrics snapshot if `publish` says so, then wait.
    Sample { index: usize, publish: bool, sleep_ms: u64 },
}

/// Milliseconds from `earlier` to `now`; none if the clock went back.
pub open spec fn elapsed_ms(earlier: u64, now: u64) -> int {
    if now >= earlier {
        now - earlier
    } else {
        0
    }
}

/// The step that the coordinator takes at `now_ms` with `snapshots`
/// telemetry snapshots registered, when it last published at `last_publish_ms`.
pub open spec fn step_at(last_publish_ms: u64, snapshots: usize, now_ms: u64) -> CoordinatorStep {
    if snapshots == 0 {
        CoordinatorStep::Idle { sleep_ms: IDLE_INTERVAL_MS }
    } else {
        CoordinatorStep::Sample {
            index: ((now_ms / 1000) % (snapshots as u64)) as usize,
            publish: elapsed_ms(last_publish_ms, now_ms) >= PUBLISH_INTERVAL_MS,
            sleep_ms: POLL_INTERVAL_MS,
        }
    }
}

/// The pacing state of the feedback coordinator.
pub struct AdaptiveFeedbackCoordinator {
    last_publish_ms: u64,
}

impl AdaptiveFeedbackCoordinator {
    /// The time of the last published snapshot, in milliseconds.
    pub closed spec fn last_publish(&self) -> u64 {
        self.last_publish_ms
    }

    /// A coordinator that starts at `now_ms`; its first snapshot is due a
    /// publish interval later.
    pub fn new(now_ms: u64) -> (c: AdaptiveFeedbackCoordinator)
        ensures
            c.last_publish() == now_ms,
    {
        AdaptiveFeedbackCoordinator { last_publish_ms: now_ms }
    }

    /// Decides one iteration. The snapshot to sample rotates with the
    /// seconds of the clock. A snapshot is published once a publish interval
    /// has passed since the last one, and the publish timer then starts
    /// anew.
    pub fn step(&mut self, snapshots: usize, now_ms: u64) -> (r: CoordinatorStep)
        ensures
            r == step_at(old(self).last_publish(), snapshots, now_ms),
            final(self).last_publish() == (match r {
                CoordinatorStep::Sample { publish: true, .. } => now_ms,
                _ => old(self).last_publish(),
            }),
            r matches CoordinatorStep::Sample { index, .. } ==> index < snapshots,
    {
        if snapshots == 0 {
            return CoordinatorStep::Idle { sleep_ms: IDLE_INTERVAL_MS };
        }
        let index: usize = ((now_ms / 1000) % (snapshots as u64)) as usize;
        let elapsed: u64 = if now_ms >= self.last_publish_ms {
            now_ms - self.last_publish_ms
        } else {
            0
        };
        let publish = elapsed >= PUBLISH_INTERVAL_MS;
        if publish {
            self.last_publish_ms = now_ms;
        }
        CoordinatorStep::Sample { index, publish, sleep_ms: POLL_INTERVAL_MS }
    }
}

/// How long the main loop waits after a cycle that took `elapsed_ns`
/// nanoseconds, so that one round takes `tick_ns` at least.
pub fn throttle_delay_ns(elapsed_ns: u64, tick_ns: u64) -> (delay: u64)
    ensures
        delay == (if elapsed_ns < tick_ns {
            tick_ns - elapsed_ns
        } else {
            0
        }),
{
    if elapsed_ns < tick_ns {
        tick_ns - elapsed_ns
    } else {
        0
    }
}

/// The number of thread groups of `threads_per_group` threads that cover
/// `total_threads` threads.
pub fn threadgroup_count(total_threads: u64, threads_per_group: u64) -> (groups: u64)
    requires
        threads_per_group > 0,
        total_threads + threads_per_group <= u64::MAX,
    ensures
        groups * threads_per_group >= total_threads,
        (groups - 1) * threads_per_group < total_threads || groups == 0,
        groups == (total_threads + threads_per_group - 1) / (threads_per_group as int),
{
    let groups: u64 = (total_threads + threads_per_group - 1) / threads_per_group;
    proof {
        let n = (total_threads + threads_per_group - 1) as int;
        let d = threads_per_group as int;
        vstd::arithmetic::div_mod::lemma_fundamental_div_mod(n, d);
        vstd::arithmetic::div_mod::lemma_mod_bound(n, d);
        assert(d * (n / d) == (n / d) * d) by (nonlinear_arith);
        assert((n / d - 1) * d == (n / d) * d - d) by (nonlinear_arith);
    }
    groups
}

/// A mask that narrows or widens with the average telemetry weight.
pub struct AdaptiveMasks {
    pub mask16: u32,
}

/// The mask after an average weight was observed: shifted right where the
/// weight is above five hundredths, left where it is below one hundredth,
/// with the lowest bit set in both cases; unchanged otherwise.
pub open spec fn mask_after(mask: u32, average: Binary32) -> u32 {
    if (Binary32 { bits: MASK_NARROW_BITS }).below(average) {
        (mask >> 1) | 1
    } else if average.below(Binary32 { bits: MASK_WIDEN_BITS }) {
        (mask << 1) | 1
    } else {
        mask
    }
}

impl AdaptiveMasks {
    /// The mask with every bit set.
    pub fn new() -> (m: AdaptiveMasks)
        ensures
            m.mask16 == 0xffff_ffffu32,
    {
        AdaptiveMasks { mask16: 0xFFFF_FFFF }
    }

    /// Adapts the mask to the average weight over the lanes.
    pub fn update_from_telemetry(&mut self, average: Binary32)
        ensures
            final(self).mask16 == mask_after(old(self).mask16, average),
    {
        if average.gt(Binary32::from_bits(MASK_NARROW_BITS)) {
            self.mask16 = (self.mask16 >> 1) | 1;
        } else if average.lt(Binary32::from_bits(MASK_WIDEN_BITS)) {
            self.mask16 = (self.mask16 << 1) | 1;
        }
    }
}

} // verus!
