//! The dispatcher of search cycles: which nonces a cycle searches, which
//! instance of each double-buffered array it binds, and which submitted
//! cycles are still in flight.
//!
//! The dispatcher decides; its caller talks to the device. The caller asks
//! for the next cycle, encodes and commits what it is given, and reports
//! back when a submitted cycle has completed or the device has failed.

use vstd::prelude::*;
use crate::constants::LANES;

verus! {

/// Nonces that one lane searches in one cycle: 128 for each of its 16
/// nibbles.
pub const NONCE_STRIDE: u32 = 2048;

/// Nonces that all lanes together search in one cycle.
pub const CYCLE_STRIDE: u32 = 8192;

/// One of the two physical instances of a double-buffered array.
#[derive(Clone, Copy, Debug, PartialEq, Eq, Structural)]
pub enum BufferSide {
    A,
    B,
}

impl BufferSide {
    pub open spec fn flipped(self) -> BufferSide {
        match self {
            BufferSide::A => BufferSide::B,
            BufferSide::B => BufferSide::A,
        }
    }

    /// The other instance.
    pub fn other(self) -> (r: BufferSide)
        ensures
            r == self.flipped(),
    {
        match self {
            BufferSide::A => BufferSide::B,
            BufferSide::B => BufferSide::A,
        }
    }
}

/// The instance that each double-buffered binding of a cycle uses.
#[derive(Clone, Copy, Debug, PartialEq, Eq, Structural)]
pub struct BufferBindings {
    /// Where the cycle writes its digests.
    pub digest: BufferSide,
    /// Where the cycle writes its posteriors.
    pub posterior: BufferSide,
    /// Where the cycle writes its transform values.
    pub transform: BufferSide,
    /// Where the cycle writes its consensus scores.
    pub consensus: BufferSide,
    /// Where the cycle reads the posteriors of the cycle before it.
    pub prior_posterior: BufferSide,
}

/// The bindings under a selector.
pub open spec fn bindings_of(selector: bool) -> BufferBindings {
    if selector {
        BufferBindings {
            digest: BufferSide::A,
            posterior: BufferSide::B,
            transform: BufferSide::B,
            consensus: BufferSide::B,
            prior_posterior: BufferSide::A,
        }
    } else {
        BufferBindings {
            digest: BufferSide::B,
            posterior: BufferSide::A,
            transform: BufferSide::A,
            consensus: BufferSide::A,
            prior_posterior: BufferSide::B,
        }
    }
}

/// The bindings under a selector.
pub fn bindings_for(selector: bool) -> (b: BufferBindings)
    ensures
        b == bindings_of(selector),
{
    if selector {
        BufferBindings {
            digest: BufferSide::A,
            posterior: BufferSide::B,
            transform: BufferSide::B,
            consensus: BufferSide::B,
            prior_posterior: BufferSide::A,
        }
    } else {
        BufferBindings {
            digest: BufferSide::B,
            posterior: BufferSide::A,
            transform: BufferSide::A,
            consensus: BufferSide::A,
            prior_posterior: BufferSide::B,
        }
    }
}

/// The bindings of the cycle with this number.
pub fn cycle_bindings(id: u64) -> (b: BufferBindings)
    ensures
        b == bindings_of(selector_of(id as int)),
{
    bindings_for(id % 2 == 0)
}

/// Whether two cycles with these bindings write no instance in common.
pub open spec fn disjoint_writes(x: BufferBindings, y: BufferBindings) -> bool {
    &&& x.digest != y.digest
    &&& x.posterior != y.posterior
    &&& x.transform != y.transform
    &&& x.consensus != y.consensus
}

/// The selector of the cycle with this number: the first cycle runs under
/// `true`, and the selector flips with every cycle.
pub open spec fn selector_of(cycle: int) -> bool {
    cycle % 2 == 0
}

/// The number of nonces there are: a nonce has 32 bits.
pub const NONCE_SPACE: u64 = 0x1_0000_0000;

/// The first nonce of `lane` in the cycle with number `cycle`, when the
/// shared counter stood at `first` before cycle 0. Every lane of every cycle
/// takes the counter's value and advances it by `NONCE_STRIDE`, so that a
/// cycle advances it by `CYCLE_STRIDE`.
pub open spec fn start_nonce(first: u32, lane: int, cycle: int) -> int {
    first + cycle * CYCLE_STRIDE as int + lane * NONCE_STRIDE as int
}

/// Whether the ranges of the cycle with number `cycle` lie within the
/// nonces that there are. A cycle whose ranges do not is never handed out:
/// the counter does not wrap round.
pub open spec fn fits(first: u32, cycle: int) -> bool {
    start_nonce(first, 0, cycle + 1) <= NONCE_SPACE
}

/// Where a cycle stands.
#[derive(Clone, Copy, Debug, PartialEq, Eq, Structural)]
pub enum CycleState {
    /// The host fills the input buffers.
    Building,
    /// The device works on the cycle.
    Submitted,
    /// The completion signal has fired; the outputs may be read.
    Completed,
    /// A device error ended the cycle.
    Abandoned,
}

/// What can happen to a cycle.
#[derive(Clone, Copy, Debug, PartialEq, Eq, Structural)]
pub enum CycleEvent {
    /// The host has committed the cycle to the device.
    Committed,
    /// The device has signalled completion.
    CompletionSignalled,
    /// The device has failed.
    DeviceError,
}

/// The state that follows `state` on `event`, or nothing where the event
/// cannot happen in that state.
pub open spec fn next_state(state: CycleState, event: CycleEvent) -> Option<CycleState> {
    match (state, event) {
        (CycleState::Building, CycleEvent::Committed) => Some(CycleState::Submitted),
        (CycleState::Building, CycleEvent::DeviceError) => Some(CycleState::Abandoned),
        (CycleState::Submitted, CycleEvent::CompletionSignalled) => Some(CycleState::Completed),
        (CycleState::Submitted, CycleEvent::DeviceError) => Some(CycleState::Abandoned),
        _ => None,
    }
}

impl CycleState {
    /// Whether the cycle has ended.
    pub open spec fn is_final(self) -> bool {
        self == CycleState::Completed || self == CycleState::Abandoned
    }

    /// The state that follows on `event`, or nothing where the event
    /// cannot happen in this state.
    pub fn advance(self, event: CycleEvent) -> (r: Option<CycleState>)
        ensures
            r == next_state(self, event),
    {
        match self {
            CycleState::Building => match event {
                CycleEvent::Committed => Some(CycleState::Submitted),
                CycleEvent::DeviceError => Some(CycleState::Abandoned),
                CycleEvent::CompletionSignalled => None,
            },
            CycleState::Submitted => match event {
                CycleEvent::CompletionSignalled => Some(CycleState::Completed),
                CycleEvent::DeviceError => Some(CycleState::Abandoned),
                CycleEvent::Committed => None,
            },
            CycleState::Completed => None,
            CycleState::Abandoned => None,
        }
    }
}

/// A cycle runs forward only: nothing follows a final state, and outputs
/// are readable only after the completion signal.
pub proof fn lemma_cycle_runs_forward(state: CycleState, event: CycleEvent)
    ensures
        state.is_final() ==> next_state(state, event) is None,
        next_state(state, event) == Some(CycleState::Completed) ==> state == CycleState::Submitted
            && event == CycleEvent::CompletionSignalled,
        next_state(state, event) == Some(CycleState::Submitted) ==> state == CycleState::Building
            && event == CycleEvent::Committed,
        next_state(state, event) != Some(CycleState::Building),
{
}

/// A submitted cycle that has not been reaped.
#[derive(Clone, Copy, Debug, PartialEq, Eq, Structural)]
pub struct InFlight {
    /// The cycle's number.
    pub id: u64,
    /// The selector under which the cycle was submitted.
    pub selector: bool,
}

/// One dispatch round, as the dispatcher hands it out for encoding.
#[derive(Clone, Copy, Debug)]
pub struct MiningCycle {
    /// The cycle's number, counted from 0.
    pub id: u64,
    /// The selector under which the cycle runs.
    pub selector: bool,
    /// The first nonce of each lane.
    pub start_nonce: [u32; LANES],
    /// The header midstate.
    pub midstate: [u32; 8],
    /// The message schedule.
    pub schedule: [u32; 64],
    /// The instances that the cycle binds.
    pub bindings: BufferBindings,
}

/// Why no cycle was handed out.
#[derive(Clone, Copy, Debug, PartialEq, Eq, Structural)]
pub enum SubmitError {
    /// The device failed and has not been reinitialized since.
    DeviceLost,
    /// A submitted cycle that has not been reaped still uses the instances
    /// that the next cycle would write: wait for its completion first.
    BufferBusy,
    /// The cycle numbers are used up.
    Exhausted,
}

/// What follows an attempt to reinitialize the device.
#[derive(Clone, Copy, Debug, PartialEq, Eq, Structural)]
pub enum Recovery {
    /// The device is back; cycles can be submitted again.
    Ready,
    /// The attempt failed; another one is in order.
    Retry,
    /// The attempt failed, and as many have failed in a row as the
    /// dispatcher tolerates.
    Fatal,
}

/// What a dispatcher stands for.
pub struct DispatcherState {
    /// Where the nonce counter stood before cycle 0.
    pub first: u32,
    /// The number of cycles handed out so far.
    pub issued: int,
    /// The submitted cycles that have not been reaped, oldest first.
    pub in_flight: Seq<InFlight>,
    /// Whether the device has failed and not come back.
    pub device_lost: bool,
    /// Attempts to reinitialize that have failed in a row.
    pub failed_reinits: int,
    /// The number of failed attempts in a row that is fatal.
    pub reinit_limit: int,
    /// Whether the latest cycle handed out under the selector `true` was
    /// abandoned.
    pub abandoned_first: bool,
    /// Whether the latest cycle handed out under the selector `false` was
    /// abandoned.
    pub abandoned_second: bool,
}

/// Whether the latest cycle handed out under `selector` was abandoned.
pub open spec fn abandoned_under(state: DispatcherState, selector: bool) -> bool {
    if selector {
        state.abandoned_first
    } else {
        state.abandoned_second
    }
}

/// The state with the mark of abandonment under `selector` set to `mark`.
pub open spec fn with_mark(state: DispatcherState, selector: bool, mark: bool) -> DispatcherState {
    if selector {
        DispatcherState { abandoned_first: mark, ..state }
    } else {
        DispatcherState { abandoned_second: mark, ..state }
    }
}

/// Whether the outputs of the cycle with this number may be read: the
/// cycle was handed out; no later cycle has been handed the instances that
/// it wrote; its completion signal has fired and it was reaped; and it was
/// not abandoned.
pub open spec fn readable(state: DispatcherState, id: u64) -> bool {
    &&& id < state.issued
    &&& id + 2 >= state.issued
    &&& !tracks(state.in_flight, id)
    &&& !abandoned_under(state, selector_of(id as int))
}

/// The state after the cycle with this number was given up: the cycle
/// leaves the cycles in flight and, if it was among them, is marked as
/// abandoned; the device counts as lost.
pub open spec fn after_abandoning(state: DispatcherState, id: u64) -> DispatcherState {
    let marked = if tracks(state.in_flight, id) {
        with_mark(state, selector_of(id as int), true)
    } else {
        state
    };
    DispatcherState { in_flight: without(state.in_flight, id), device_lost: true, ..marked }
}

/// Whether a cycle in flight was submitted under `selector`.
pub open spec fn busy(in_flight: Seq<InFlight>, selector: bool) -> bool {
    exists|i: int| 0 <= i < in_flight.len() && (#[trigger] in_flight[i]).selector == selector
}

/// Whether a cycle with this number is in flight.
pub open spec fn tracks(in_flight: Seq<InFlight>, id: u64) -> bool {
    exists|i: int| 0 <= i < in_flight.len() && (#[trigger] in_flight[i]).id == id
}

/// The place of the cycle with this number.
pub open spec fn place_of(in_flight: Seq<InFlight>, id: u64) -> int {
    choose|i: int| 0 <= i < in_flight.len() && (#[trigger] in_flight[i]).id == id
}

/// The cycles in flight without the one with this number.
pub open spec fn without(in_flight: Seq<InFlight>, id: u64) -> Seq<InFlight> {
    if tracks(in_flight, id) {
        in_flight.remove(place_of(in_flight, id))
    } else {
        in_flight
    }
}

/// The cycles in flight without those whose numbers are given.
pub open spec fn without_all(in_flight: Seq<InFlight>, ids: Seq<u64>) -> Seq<InFlight>
    decreases ids.len(),
{
    if ids.len() == 0 {
        in_flight
    } else {
        without(without_all(in_flight, ids.drop_last()), ids.last())
    }
}

/// The state of a dispatcher after the cycles with the given numbers were
/// reaped.
pub open spec fn after_reaping(state: DispatcherState, completed: Seq<u64>) -> DispatcherState {
    DispatcherState { in_flight: without_all(state.in_flight, completed), ..state }
}

/// What holds of the cycles in flight: each was handed out, under the
/// selector of its number, and is the latest under that selector; they
/// stand in the order of submission; and no two of them ran under the same
/// selector, so that no two share an instance.
pub open spec fn in_flight_ok(in_flight: Seq<InFlight>, issued: int) -> bool {
    &&& forall|i: int|
        0 <= i < in_flight.len() ==> (#[trigger] in_flight[i]).id < issued && in_flight[i].id + 2
            >= issued && in_flight[i].selector == selector_of(in_flight[i].id as int)
    &&& forall|i: int, j: int|
        0 <= i < j < in_flight.len() ==> (#[trigger] in_flight[i]).id < (
        #[trigger] in_flight[j]).id
    &&& forall|i: int, j: int|
        0 <= i < j < in_flight.len() ==> (#[trigger] in_flight[i]).selector != (
        #[trigger] in_flight[j]).selector
}

/// At most two cycles are in flight.
pub proof fn lemma_in_flight_bounded(in_flight: Seq<InFlight>, issued: int)
    requires
        in_flight_ok(in_flight, issued),
    ensures
        in_flight.len() <= 2,
{
    if in_flight.len() >= 3 {
        assert(in_flight[0].selector != in_flight[1].selector);
        assert(in_flight[0].selector != in_flight[2].selector);
        assert(in_flight[1].selector != in_flight[2].selector);
    }
}

/// Taking a cycle out of the cycles in flight leaves the others in flight.
pub proof fn lemma_without_ok(in_flight: Seq<InFlight>, issued: int, id: u64)
    requires
        in_flight_ok(in_flight, issued),
    ensures
        in_flight_ok(without(in_flight, id), issued),
        !tracks(without(in_flight, id), id),
        forall|other: u64|
            other != id ==> tracks(without(in_flight, id), other) == tracks(in_flight, other),
{
    let rest = without(in_flight, id);
    if tracks(in_flight, id) {
        let at = place_of(in_flight, id);
        assert forall|i: int| 0 <= i < rest.len() implies #[trigger] rest[i] == in_flight[if i
            < at {
            i
        } else {
            i + 1
        }] by {}
        assert forall|i: int, j: int| 0 <= i < j < rest.len() implies (#[trigger] rest[i]).id < (
        #[trigger] rest[j]).id && rest[i].selector != rest[j].selector by {
            let a = if i < at { i } else { i + 1 };
            let b = if j < at { j } else { j + 1 };
            assert(rest[i] == in_flight[a] && rest[j] == in_flight[b]);
        }
        assert forall|i: int| 0 <= i < rest.len() implies (#[trigger] rest[i]).id != id by {
            let a = if i < at { i } else { i + 1 };
            assert(rest[i] == in_flight[a]);
            if a < at {
                assert(in_flight[a].id < in_flight[at].id);
            } else {
                assert(in_flight[at].id < in_flight[a].id);
            }
        }
        assert forall|other: u64| other != id implies tracks(rest, other) == tracks(
            in_flight,
            other,
        ) by {
            if tracks(in_flight, other) {
                let k = place_of(in_flight, other);
                let i = if k < at { k } else { k - 1 };
                assert(rest[i] == in_flight[k]);
            }
            if tracks(rest, other) {
                let i = place_of(rest, other);
                let a = if i < at { i } else { i + 1 };
                assert(rest[i] == in_flight[a]);
            }
        }
    }
}

/// Why a dispatcher in this state hands out no cycle, if it does not: the
/// device is lost; or else a cycle in flight still uses the instances that
/// the next cycle would bind; or else the nonces are used up: the ranges of
/// the next cycle would reach beyond the nonces that there are.
pub open spec fn refusal(state: DispatcherState) -> Option<SubmitError> {
    if state.device_lost {
        Some(SubmitError::DeviceLost)
    } else if busy(state.in_flight, selector_of(state.issued)) {
        Some(SubmitError::BufferBusy)
    } else if !fits(state.first, state.issued) {
        Some(SubmitError::Exhausted)
    } else {
        None
    }
}

/// Hands out search cycles and keeps track of those in flight.
pub struct NonceSearchDispatcher {
    first_nonce: u32,
    issued: u64,
    nonce_base: u64,
    active_buffer: bool,
    in_flight: Vec<InFlight>,
    needs_reinit: bool,
    failed_reinits: u32,
    reinit_limit: u32,
    abandoned_first: bool,
    abandoned_second: bool,
}

impl View for NonceSearchDispatcher {
    type V = DispatcherState;

    closed spec fn view(&self) -> DispatcherState {
        DispatcherState {
            first: self.first_nonce,
            issued: self.issued as int,
            in_flight: self.in_flight@,
            device_lost: self.needs_reinit,
            failed_reinits: self.failed_reinits as int,
            reinit_limit: self.reinit_limit as int,
            abandoned_first: self.abandoned_first,
            abandoned_second: self.abandoned_second,
        }
    }
}

impl NonceSearchDispatcher {
    /// Where the shared nonce counter stands.
    pub closed spec fn counter(&self) -> u64 {
        self.nonce_base
    }

    /// The selector of the next cycle.
    pub closed spec fn selector(&self) -> bool {
        self.active_buffer
    }

    /// The dispatcher's invariant.
    pub open spec fn wf(&self) -> bool {
        &&& 0 <= self@.issued
        &&& start_nonce(self@.first, 0, self@.issued) <= NONCE_SPACE
        &&& self.counter() == start_nonce(self@.first, 0, self@.issued)
        &&& self.selector() == selector_of(self@.issued)
        &&& in_flight_ok(self@.in_flight, self@.issued)
        &&& 0 <= self@.failed_reinits <= u32::MAX
        &&& 0 <= self@.reinit_limit <= u32::MAX
    }

    /// A dispatcher whose nonce counter starts at `first_nonce`, with the
    /// device ready, and for which `reinit_limit` failed attempts in a row to
    /// reinitialize the device are fatal.
    pub fn new(first_nonce: u32, reinit_limit: u32) -> (d: NonceSearchDispatcher)
        ensures
            d.wf(),
            d@ == (DispatcherState {
                first: first_nonce,
                issued: 0,
                in_flight: Seq::empty(),
                device_lost: false,
                failed_reinits: 0,
                reinit_limit: reinit_limit as int,
                abandoned_first: false,
                abandoned_second: false,
            }),
    {
        NonceSearchDispatcher {
            first_nonce,
            issued: 0,
            nonce_base: first_nonce as u64,
            active_buffer: true,
            in_flight: Vec::new(),
            needs_reinit: false,
            failed_reinits: 0,
            reinit_limit,
            abandoned_first: false,
            abandoned_second: false,
        }
    }

    /// The selector of the next cycle.
    pub fn active_buffer(&self) -> (s: bool)
        requires
            self.wf(),
        ensures
            s == selector_of(self@.issued),
    {
        self.active_buffer
    }

    /// The number of cycles handed out so far.
    pub fn issued(&self) -> (n: u64)
        ensures
            n == self@.issued,
    {
        self.issued
    }

    /// The number of submitted cycles that have not been reaped.
    pub fn in_flight_count(&self) -> (n: usize)
        requires
            self.wf(),
        ensures
            n == self@.in_flight.len(),
            n <= 2,
    {
        proof {
            lemma_in_flight_bounded(self@.in_flight, self@.issued);
        }
        self.in_flight.len()
    }

    /// Whether no cycle is in flight: the window in which the tuned
    /// parameters may be written to the device.
    pub fn quiescent(&self) -> (r: bool)
        ensures
            r == (self@.in_flight.len() == 0),
    {
        self.in_flight.len() == 0
    }

    /// Whether the outputs of the cycle with this number may be read.
    pub fn outputs_readable(&self, id: u64) -> (r: bool)
        requires
            self.wf(),
        ensures
            r == readable(self@, id),
    {
        if id >= self.issued || self.issued - id > 2 {
            return false;
        }
        let selector = id % 2 == 0;
        let abandoned = if selector {
            self.abandoned_first
        } else {
            self.abandoned_second
        };
        if abandoned {
            return false;
        }
        let mut i: usize = 0;
        while i < self.in_flight.len()
            invariant
                i <= self.in_flight@.len(),
                forall|k: int| 0 <= k < i ==> (#[trigger] self.in_flight@[k]).id != id,
            decreases self.in_flight@.len() - i,
        {
            if self.in_flight[i].id == id {
                return false;
            }
            i += 1;
        }
        true
    }

    /// Whether the device has failed and not come back.
    pub fn needs_reinit(&self) -> (r: bool)
        ensures
            r == self@.device_lost,
    {
        self.needs_reinit
    }

    fn is_busy(&self, selector: bool) -> (r: bool)
        ensures
            r == busy(self@.in_flight, selector),
    {
        let mut i: usize = 0;
        while i < self.in_flight.len()
            invariant
                i <= self.in_flight@.len(),
                forall|k: int| 0 <= k < i ==> (#[trigger] self.in_flight@[k]).selector != selector,
            decreases self.in_flight@.len() - i,
        {
            if self.in_flight[i].selector == selector {
                return true;
            }
            i += 1;
        }
        false
    }

    /// Reaps the cycles whose completion signals have fired; cycles that
    /// are not in flight are passed over. Returns how many were reaped.
    pub fn reap(&mut self, completed: &[u64]) -> (count: usize)
        requires
            old(self).wf(),
        ensures
            final(self).wf(),
            final(self)@ == after_reaping(old(self)@, completed@),
            count == old(self)@.in_flight.len() - final(self)@.in_flight.len(),
    {
        let mut count: usize = 0;
        let mut i: usize = 0;
        assert(completed@.take(0) =~= Seq::<u64>::empty());
        while i < completed.len()
            invariant
                i <= completed@.len(),
                self.wf(),
                self@ == after_reaping(old(self)@, completed@.take(i as int)),
                count == old(self)@.in_flight.len() - self@.in_flight.len(),
                count <= i,
            decreases completed@.len() - i,
        {
            proof {
                lemma_without_ok(self@.in_flight, self@.issued, completed@[i as int]);
                assert(completed@.take(i + 1).drop_last() =~= completed@.take(i as int));
            }
            if self.take_out(completed[i]) {
                count += 1;
            }
            i += 1;
        }
        assert(completed@.take(i as int) =~= completed@);
        count
    }

    /// Reaps the cycles whose completion signals have fired, then hands out
    /// the next cycle and counts it as submitted. Each lane gets the
    /// counter's value as its first nonce and advances the counter by
    /// `NONCE_STRIDE`; the selector flips. No cycle is handed out, and
    /// beyond the reaping nothing changes, while the device is lost, while
    /// a cycle in flight still uses the instances that this cycle would
    /// bind, or when the nonces are used up. A cycle that is handed out has
    /// its ranges within the nonces that there are: the counter never wraps
    /// round.
    pub fn submit_cycle(&mut self, completed: &[u64], midstate: [u32; 8], schedule: [u32; 64]) -> (r:
        Result<MiningCycle, SubmitError>)
        requires
            old(self).wf(),
        ensures
            final(self).wf(),
            (match r {
                Ok(_) => None,
                Err(e) => Some(e),
            }) == refusal(after_reaping(old(self)@, completed@)),
            r is Err ==> final(self)@ == after_reaping(old(self)@, completed@),
            r is Ok ==> {
                let cycle = r->Ok_0;
                &&& cycle.id == old(self)@.issued
                &&& cycle.selector == selector_of(old(self)@.issued)
                &&& cycle.bindings == bindings_of(cycle.selector)
                &&& cycle.midstate == midstate
                &&& cycle.schedule == schedule
                &&& forall|lane: int|
                    0 <= lane < LANES ==> #[trigger] cycle.start_nonce@[lane] == start_nonce(
                        old(self)@.first,
                        lane,
                        old(self)@.issued,
                    )
                &&& final(self)@ == (DispatcherState {
                    issued: old(self)@.issued + 1,
                    in_flight: without_all(old(self)@.in_flight, completed@).push(
                        InFlight { id: cycle.id, selector: cycle.selector },
                    ),
                    ..with_mark(old(self)@, cycle.selector, false)
                })
            },
    {
        self.reap(completed);
        if self.needs_reinit {
            return Err(SubmitError::DeviceLost);
        }
        if self.is_busy(self.active_buffer) {
            return Err(SubmitError::BufferBusy);
        }
        if self.nonce_base > NONCE_SPACE - CYCLE_STRIDE as u64 {
            return Err(SubmitError::Exhausted);
        }
        let selector = self.active_buffer;
        let id = self.issued;
        let mut starts = [0u32; LANES];
        let mut base: u64 = self.nonce_base;
        let mut lane: usize = 0;
        while lane < LANES
            invariant
                lane <= LANES,
                fits(self.first_nonce, id as int),
                base == start_nonce(self.first_nonce, lane as int, id as int),
                forall|k: int|
                    0 <= k < lane ==> #[trigger] starts@[k] == start_nonce(
                        self.first_nonce,
                        k,
                        id as int,
                    ),
            decreases LANES - lane,
        {
            starts[lane] = base as u32;
            base = base + NONCE_STRIDE as u64;
            lane += 1;
        }
        self.nonce_base = base;
        self.issued = id + 1;
        self.active_buffer = !selector;
        if selector {
            self.abandoned_first = false;
        } else {
            self.abandoned_second = false;
        }
        self.in_flight.push(InFlight { id, selector });
        Ok(
            MiningCycle {
                id,
                selector,
                start_nonce: starts,
                midstate,
                schedule,
                bindings: bindings_for(selector),
            },
        )
    }

    /// Reaps a cycle whose completion signal has fired. Reports whether the
    /// cycle was in flight.
    pub fn complete(&mut self, id: u64) -> (found: bool)
        requires
            old(self).wf(),
        ensures
            final(self).wf(),
            found == tracks(old(self)@.in_flight, id),
            final(self)@ == (DispatcherState {
                in_flight: without(old(self)@.in_flight, id),
                ..old(self)@
            }),
    {
        proof {
            lemma_without_ok(self@.in_flight, self@.issued, id);
        }
        self.take_out(id)
    }

    /// Gives up a cycle after a device error: its outputs are never
    /// readable. The device then counts as lost until it has been
    /// reinitialized.
    pub fn abandon(&mut self, id: u64) -> (found: bool)
        requires
            old(self).wf(),
        ensures
            final(self).wf(),
            found == tracks(old(self)@.in_flight, id),
            final(self)@ == after_abandoning(old(self)@, id),
    {
        proof {
            lemma_without_ok(self@.in_flight, self@.issued, id);
        }
        self.needs_reinit = true;
        let found = self.take_out(id);
        if found {
            if id % 2 == 0 {
                self.abandoned_first = true;
            } else {
                self.abandoned_second = true;
            }
        }
        found
    }

    fn take_out(&mut self, id: u64) -> (found: bool)
        requires
            in_flight_ok(old(self)@.in_flight, old(self)@.issued),
        ensures
            found == tracks(old(self)@.in_flight, id),
            final(self)@ == (DispatcherState {
                in_flight: without(old(self)@.in_flight, id),
                ..old(self)@
            }),
            final(self).counter() == old(self).counter(),
            final(self).selector() == old(self).selector(),
    {
        let mut i: usize = 0;
        while i < self.in_flight.len()
            invariant
                i <= self.in_flight@.len(),
                *self == *old(self),
                in_flight_ok(self@.in_flight, self@.issued),
                forall|k: int| 0 <= k < i ==> (#[trigger] self.in_flight@[k]).id != id,
            decreases self.in_flight@.len() - i,
        {
            if self.in_flight[i].id == id {
                proof {
                    assert(self@.in_flight[i as int].id == id);
                    let at = place_of(self@.in_flight, id);
                    if at < i {
                        assert(self.in_flight@[at].id != id);
                    } else if at > i {
                        assert(self@.in_flight[i as int].id < self@.in_flight[at].id);
                    }
                }
                self.in_flight.remove(i);
                return true;
            }
            i += 1;
        }
        false
    }

    /// Records the outcome of an attempt to reinitialize the device.
    /// Success makes the device ready and clears the count of failures. A
    /// failure is counted; it is fatal once `reinit_limit` attempts have
    /// failed in a row.
    pub fn reinitialized(&mut self, ok: bool) -> (r: Recovery)
        requires
            old(self).wf(),
        ensures
            final(self).wf(),
            ok ==> r == Recovery::Ready && final(self)@ == (DispatcherState {
                device_lost: false,
                failed_reinits: 0,
                ..old(self)@
            }),
            !ok ==> {
                let failed = if old(self)@.failed_reinits < u32::MAX {
                    old(self)@.failed_reinits + 1
                } else {
                    old(self)@.failed_reinits
                };
                &&& final(self)@ == (DispatcherState {
                    device_lost: true,
                    failed_reinits: failed,
                    ..old(self)@
                })
                &&& r == if failed >= old(self)@.reinit_limit {
                    Recovery::Fatal
                } else {
                    Recovery::Retry
                }
            },
    {
        if ok {
            self.needs_reinit = false;
            self.failed_reinits = 0;
            Recovery::Ready
        } else {
            self.needs_reinit = true;
            if self.failed_reinits < u32::MAX {
                self.failed_reinits = self.failed_reinits + 1;
            }
            if self.failed_reinits >= self.reinit_limit {
                Recovery::Fatal
            } else {
                Recovery::Retry
            }
        }
    }
}

/// Two cycles that follow one another write opposite instances of every
/// double-buffered array, and the later one reads the posteriors where the
/// earlier one wrote them.
pub proof fn lemma_toggle(cycle: int)
    requires
        cycle >= 0,
    ensures
        selector_of(cycle + 1) == !selector_of(cycle),
        disjoint_writes(bindings_of(selector_of(cycle)), bindings_of(selector_of(cycle + 1))),
        bindings_of(selector_of(cycle + 1)).prior_posterior == bindings_of(
            selector_of(cycle),
        ).posterior,
{
}

/// No two cycles that are in flight together write an instance in common.
pub proof fn lemma_in_flight_disjoint(in_flight: Seq<InFlight>, issued: int, i: int, j: int)
    requires
        in_flight_ok(in_flight, issued),
        0 <= i < j < in_flight.len(),
    ensures
        disjoint_writes(bindings_of(in_flight[i].selector), bindings_of(in_flight[j].selector)),
{
}

/// A lane's range in a later cycle begins behind the end of its range in
/// every earlier cycle: a whole cycle's stride further for every cycle
/// between them.
pub proof fn lemma_ranges_advance(first: u32, lane: int, i: int, j: int)
    requires
        0 <= lane < LANES,
        0 <= i < j,
    ensures
        start_nonce(first, lane, j) == start_nonce(first, lane, i) + (j - i) * CYCLE_STRIDE,
        start_nonce(first, lane, j) >= start_nonce(first, lane, i) + CYCLE_STRIDE,
        start_nonce(first, lane, j) >= start_nonce(first, lane, i) + NONCE_STRIDE,
{
}

/// Within one cycle the lanes' ranges lie side by side: each lane begins
/// where the lane before it ends.
pub proof fn lemma_lanes_side_by_side(first: u32, lane: int, cycle: int)
    requires
        0 <= lane < LANES - 1,
    ensures
        start_nonce(first, lane + 1, cycle) == start_nonce(first, lane, cycle) + NONCE_STRIDE,
{
}

/// The ranges of two different lanes or cycles have no nonce in common.
pub proof fn lemma_ranges_apart(first: u32, lane1: int, cycle1: int, lane2: int, cycle2: int)
    requires
        0 <= lane1 < LANES,
        0 <= lane2 < LANES,
        lane1 != lane2 || cycle1 != cycle2,
    ensures
        start_nonce(first, lane1, cycle1) + NONCE_STRIDE <= start_nonce(first, lane2, cycle2)
            || start_nonce(first, lane2, cycle2) + NONCE_STRIDE <= start_nonce(
            first,
            lane1,
            cycle1,
        ),
{
}

/// Every range of a cycle that fits lies within the nonces that there are,
/// and a cycle that fits is followed by cycles that fit or by none.
pub proof fn lemma_range_within(first: u32, lane: int, cycle: int)
    requires
        0 <= lane < LANES,
        0 <= cycle,
        fits(first, cycle),
    ensures
        0 <= start_nonce(first, lane, cycle),
        start_nonce(first, lane, cycle) + NONCE_STRIDE <= NONCE_SPACE,
        forall|earlier: int| 0 <= earlier <= cycle ==> fits(first, earlier),
{
}

/// The outputs of a cycle in flight, of an abandoned cycle, and of a cycle
/// that was never handed out cannot be read.
pub proof fn lemma_unreadable(state: DispatcherState, id: u64)
    ensures
        tracks(state.in_flight, id) ==> !readable(state, id),
        id >= state.issued ==> !readable(state, id),
        tracks(state.in_flight, id) ==> !readable(after_abandoning(state, id), id),
{
}

} // verus!
