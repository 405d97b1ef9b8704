//! The metrics hub and the status log.
//!
//! Both the cycle loop and the feedback coordinator produce snapshots. The
//! hub keeps the one that came last; an older snapshot is never merged
//! with a newer one.

use vstd::prelude::*;
use crate::adaptive::{MinerMetrics, UiMessage};
use crate::binary32::Binary32;

verus! {

/// Lines that the status log keeps.
pub const LOG_LINES: usize = 12;

/// Holds the latest metrics snapshot.
pub struct MetricsHub {
    latest: MinerMetrics,
    received: u64,
}

impl MetricsHub {
    /// The snapshot that the hub holds.
    pub closed spec fn snapshot(&self) -> MinerMetrics {
        self.latest
    }

    /// The number of snapshots received so far; it stops at the largest
    /// 64-bit number.
    pub closed spec fn count(&self) -> u64 {
        self.received
    }

    /// A hub that holds `initial` and has received nothing.
    pub fn new(initial: MinerMetrics) -> (hub: MetricsHub)
        ensures
            hub.snapshot() == initial,
            hub.count() == 0,
    {
        MetricsHub { latest: initial, received: 0 }
    }

    /// Takes a snapshot in place of the one held: the last write wins.
    pub fn publish(&mut self, updated: MinerMetrics)
        ensures
            final(self).snapshot() == updated,
            final(self).count() == (if old(self).count() < u64::MAX {
                (old(self).count() + 1) as u64
            } else {
                old(self).count()
            }),
    {
        self.latest = updated;
        if self.received < u64::MAX {
            self.received = self.received + 1;
        }
    }

    /// The snapshot that the hub holds.
    pub fn latest(&self) -> (m: &MinerMetrics)
        ensures
            *m == self.snapshot(),
    {
        &self.latest
    }

    /// The number of snapshots received so far.
    pub fn received(&self) -> (n: u64)
        ensures
            n == self.count(),
    {
        self.received
    }
}

/// What the log holds after a line was added: the line at the end, and the
/// oldest line gone if there were twelve already.
pub open spec fn log_after(lines: Seq<String>, line: String) -> Seq<String> {
    if lines.len() + 1 > LOG_LINES {
        lines.push(line).drop_first()
    } else {
        lines.push(line)
    }
}

/// The last status lines, oldest first.
pub struct StatusLog {
    lines: Vec<String>,
}

impl View for StatusLog {
    type V = Seq<String>;

    closed spec fn view(&self) -> Seq<String> {
        self.lines@
    }
}

impl StatusLog {
    /// The log's invariant: it holds twelve lines at most.
    pub open spec fn wf(&self) -> bool {
        self@.len() <= LOG_LINES
    }

    pub fn new() -> (log: StatusLog)
        ensures
            log.wf(),
            log@ == Seq::<String>::empty(),
    {
        StatusLog { lines: Vec::new() }
    }

    /// Adds a line; the oldest line leaves once there are more than twelve.
    pub fn push(&mut self, line: String)
        requires
            old(self).wf(),
        ensures
            final(self).wf(),
            final(self)@ == log_after(old(self)@, line),
    {
        self.lines.push(line);
        if self.lines.len() > LOG_LINES {
            self.lines.remove(0);
            assert(self.lines@ =~= old(self)@.push(line).drop_first());
        }
    }

    /// The lines, oldest first.
    pub fn lines(&self) -> (lines: &Vec<String>)
        ensures
            lines@ == self@,
    {
        &self.lines
    }
}

/// Bit pattern of one, the full ratio of a gauge.
pub const FULL_RATIO_BITS: u32 = 0x3f80_0000;

/// What the status display shows: the latest metrics snapshot and the last
/// status lines.
pub struct StatusBoard {
    latest: MinerMetrics,
    log: StatusLog,
}

impl StatusBoard {
    /// The snapshot on the board.
    pub closed spec fn snapshot(&self) -> MinerMetrics {
        self.latest
    }

    /// The status lines on the board, oldest first.
    pub closed spec fn log_lines(&self) -> Seq<String> {
        self.log@
    }

    /// The board's invariant: it holds twelve status lines at most.
    pub open spec fn wf(&self) -> bool {
        self.log_lines().len() <= LOG_LINES
    }

    /// A board that shows `initial` and no status line.
    pub fn new(initial: MinerMetrics) -> (board: StatusBoard)
        ensures
            board.wf(),
            board.snapshot() == initial,
            board.log_lines() == Seq::<String>::empty(),
    {
        StatusBoard { latest: initial, log: StatusLog::new() }
    }

    /// Takes a message: a metrics snapshot replaces the one shown, a status
    /// line goes to the end of the log.
    pub fn apply(&mut self, message: UiMessage)
        requires
            old(self).wf(),
        ensures
            final(self).wf(),
            match message {
                UiMessage::Metrics(updated) => {
                    &&& final(self).snapshot() == updated
                    &&& final(self).log_lines() == old(self).log_lines()
                },
                UiMessage::Status(line) => {
                    &&& final(self).snapshot() == old(self).snapshot()
                    &&& final(self).log_lines() == log_after(old(self).log_lines(), line)
                },
            },
    {
        match message {
            UiMessage::Metrics(updated) => {
                self.latest = updated;
            },
            UiMessage::Status(line) => {
                self.log.push(line);
            },
        }
    }

    /// The snapshot on the board.
    pub fn metrics(&self) -> (m: &MinerMetrics)
        ensures
            *m == self.snapshot(),
    {
        &self.latest
    }

    /// The status lines on the board, oldest first.
    pub fn lines(&self) -> (lines: &Vec<String>)
        ensures
            lines@ == self.log_lines(),
    {
        self.log.lines()
    }
}

/// The ratio that a gauge shows for a scalar: the scalar held to the
/// interval from zero to one.
pub fn gauge_ratio(x: Binary32) -> (r: Binary32)
    ensures
        r.bits == (if x.below(Binary32 { bits: 0 }) {
            0
        } else if (Binary32 { bits: FULL_RATIO_BITS }).below(x) {
            FULL_RATIO_BITS
        } else {
            x.bits
        }),
        !x.nan() ==> (Binary32 { bits: 0 }).at_most(r) && r.at_most(
            Binary32 { bits: FULL_RATIO_BITS },
        ),
{
    x.clamp(Binary32::from_bits(0), Binary32::from_bits(FULL_RATIO_BITS))
}

} // verus!
