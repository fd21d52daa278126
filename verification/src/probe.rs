//! Classification of a single timed connection attempt, and the probe-loop
//! state machine.

use crate::stats::PingStats;
use vstd::prelude::*;

verus! {

/// Number of nanoseconds in one millisecond.
pub const NANOS_PER_MILLI: u64 = 1_000_000;

/// True when an attempt that took `elapsed_ns` nanoseconds has exhausted a
/// budget of `timeout_ms` whole milliseconds.
pub open spec fn timed_out(elapsed_ns: u64, timeout_ms: u64) -> bool {
    elapsed_ns >= timeout_ms * NANOS_PER_MILLI
}

/// Decides whether an attempt that took `elapsed_ns` nanoseconds ran past a
/// timeout of `timeout_ms` milliseconds. The comparison is widened so that no
/// timeout value can overflow it.
pub fn check_timeout(elapsed_ns: u64, timeout_ms: u64) -> (r: bool)
    ensures
        r == timed_out(elapsed_ns, timeout_ms),
{
    proof {
        assert((timeout_ms as int) * (NANOS_PER_MILLI as int) <= (u64::MAX as int) * (
        NANOS_PER_MILLI as int)) by (nonlinear_arith)
            requires
                timeout_ms <= u64::MAX,
        ;
    }
    (elapsed_ns as u128) >= (timeout_ms as u128) * (NANOS_PER_MILLI as u128)
}

/// What the unverified connector reports for one attempt, stripped to plain
/// values: the connection completed, was actively refused, failed with some
/// other error, or the connector's own wait elapsed first.
#[derive(Clone, Copy, Debug, PartialEq, Eq, Structural)]
pub enum ConnectStatus {
    /// The connection completed within the connector's wait.
    Connected,
    /// The connection attempt was actively refused or unreachable.
    Refused,
    /// The connection attempt failed with any other error.
    OtherError,
    /// The connector's bounded wait elapsed before the attempt finished.
    TimedOut,
}

/// Why one probe failed.
#[derive(Clone, Copy, Debug, PartialEq, Eq, Structural)]
pub enum ProbeError {
    /// The timeout budget elapsed before the connection completed.
    ConnectTimeout,
    /// The connection attempt was actively refused or unreachable.
    ConnectRefused,
    /// The connection attempt failed with any other error.
    ConnectOther,
}

/// The result of one probe: a success carries its round-trip time in
/// nanoseconds, a failure its reason.
#[derive(Clone, Copy, Debug, PartialEq, Eq, Structural)]
pub enum ProbeOutcome {
    /// The probe succeeded within its budget.
    Success(u64),
    /// The probe failed.
    Failure(ProbeError),
}

/// The outcome a connector report and its measured elapsed time amount to:
/// an attempt that ran past its budget is a timeout whatever the connector
/// reported; within the budget the report decides, and a completed connection
/// is a success timed at the measured elapsed time.
pub open spec fn classify_spec(status: ConnectStatus, elapsed_ns: u64, timeout_ms: u64)
    -> ProbeOutcome {
    if timed_out(elapsed_ns, timeout_ms) {
        ProbeOutcome::Failure(ProbeError::ConnectTimeout)
    } else {
        match status {
            ConnectStatus::Connected => ProbeOutcome::Success(elapsed_ns),
            ConnectStatus::Refused => ProbeOutcome::Failure(ProbeError::ConnectRefused),
            ConnectStatus::OtherError => ProbeOutcome::Failure(ProbeError::ConnectOther),
            ConnectStatus::TimedOut => ProbeOutcome::Failure(ProbeError::ConnectTimeout),
        }
    }
}

/// Classifies one attempt: the race against the timeout wins over whatever
/// the connector reported, so an attempt whose elapsed time reached the
/// budget is a timeout even when the connection eventually completed.
pub fn classify_outcome(status: ConnectStatus, elapsed_ns: u64, timeout_ms: u64)
    -> (r: ProbeOutcome)
    ensures
        r == classify_spec(status, elapsed_ns, timeout_ms),
{
    if check_timeout(elapsed_ns, timeout_ms) {
        return ProbeOutcome::Failure(ProbeError::ConnectTimeout);
    }
    match status {
        ConnectStatus::Connected => ProbeOutcome::Success(elapsed_ns),
        ConnectStatus::Refused => ProbeOutcome::Failure(ProbeError::ConnectRefused),
        ConnectStatus::OtherError => ProbeOutcome::Failure(ProbeError::ConnectOther),
        ConnectStatus::TimedOut => ProbeOutcome::Failure(ProbeError::ConnectTimeout),
    }
}

/// Where the probe loop stands.
#[derive(Clone, Copy, Debug, PartialEq, Eq, Structural)]
pub enum LoopState {
    /// Probes may still be issued.
    Running,
    /// No further probe will be issued.
    Stopped,
}

/// The probe loop's decision state: the iteration limit, the zero-based
/// sequence number of the next probe, the running statistics, and whether the
/// loop has stopped. The unverified shell owns the clock, the sockets and the
/// waits; it consults `begin_probe` before each attempt, feeds every outcome
/// to `record_outcome`, and consults `begin_wait` before each inter-probe
/// pause, handing in the current value of the shared keep-running flag at
/// both checkpoints.
pub struct ProbeLoop {
    /// How many probes to send; 0 means unbounded.
    pub count: u32,
    /// Zero-based sequence number of the next probe.
    pub next_seq: u32,
    /// The statistics accumulated so far.
    pub stats: PingStats,
    /// Whether further probes may be issued.
    pub state: LoopState,
}

impl ProbeLoop {
    /// Well-formedness: the statistics are well-formed and every issued probe
    /// was recorded — the attempt counter equals the next sequence number.
    pub open spec fn wf(self) -> bool {
        &&& self.stats.wf()
        &&& self.stats.transmitted == self.next_seq
    }

    /// Whether the iteration limit is exhausted (never, when unbounded).
    pub open spec fn limit_reached(self) -> bool {
        self.count != 0 && self.next_seq >= self.count
    }

    /// A loop ready to issue its first probe.
    pub fn new(count: u32) -> (r: ProbeLoop)
        ensures
            r.wf(),
            r.count == count,
            r.next_seq == 0,
            r.state is Running,
            r.stats.transmitted == 0,
            r.stats.received == 0,
            r.stats.rtt_values@ == Seq::<u64>::empty(),
    {
        ProbeLoop { count, next_seq: 0, stats: PingStats::new(), state: LoopState::Running }
    }

    /// Checkpoint before starting a probe: the next probe goes ahead exactly
    /// when the keep-running flag still holds and the iteration limit is not
    /// exhausted; otherwise the loop stops and nothing else changes.
    pub fn begin_probe(&mut self, keep_running: bool) -> (go: bool)
        requires
            old(self).wf(),
            old(self).state is Running,
        ensures
            final(self).wf(),
            go == (keep_running && !old(self).limit_reached()),
            go ==> *final(self) == *old(self),
            !go ==> final(self).state is Stopped,
            final(self).count == old(self).count,
            final(self).next_seq == old(self).next_seq,
            final(self).stats == old(self).stats,
    {
        if keep_running && (self.count == 0 || self.next_seq < self.count) {
            true
        } else {
            self.state = LoopState::Stopped;
            false
        }
    }

    /// Records the outcome of the probe just issued: the statistics ingest it
    /// and the sequence counter advances.
    pub fn record_outcome(&mut self, outcome: ProbeOutcome)
        requires
            old(self).wf(),
            old(self).state is Running,
            old(self).next_seq < u32::MAX,
        ensures
            final(self).wf(),
            final(self).count == old(self).count,
            final(self).state == old(self).state,
            final(self).next_seq == old(self).next_seq + 1,
            final(self).stats.transmitted == old(self).stats.transmitted + 1,
            outcome matches ProbeOutcome::Success(t) ==> {
                &&& final(self).stats.received == old(self).stats.received + 1
                &&& final(self).stats.rtt_values@ == old(self).stats.rtt_values@.push(t)
            },
            outcome is Failure ==> {
                &&& final(self).stats.received == old(self).stats.received
                &&& final(self).stats.rtt_values@ == old(self).stats.rtt_values@
                &&& final(self).stats.min_time == old(self).stats.min_time
                &&& final(self).stats.max_time == old(self).stats.max_time
                &&& final(self).stats.jitter == old(self).stats.jitter
            },
    {
        match outcome {
            ProbeOutcome::Success(t) => self.stats.update(true, Some(t)),
            ProbeOutcome::Failure(_) => self.stats.update(false, None),
        }
        self.next_seq = self.next_seq + 1;
    }

    /// Checkpoint before the inter-probe wait: the wait happens exactly when
    /// the keep-running flag still holds and another probe is permitted
    /// afterwards; otherwise the loop stops at once, skipping the wait.
    pub fn begin_wait(&mut self, keep_running: bool) -> (wait: bool)
        requires
            old(self).wf(),
            old(self).state is Running,
        ensures
            final(self).wf(),
            wait == (keep_running && !old(self).limit_reached()),
            wait ==> *final(self) == *old(self),
            !wait ==> final(self).state is Stopped,
            final(self).count == old(self).count,
            final(self).next_seq == old(self).next_seq,
            final(self).stats == old(self).stats,
    {
        if keep_running && (self.count == 0 || self.next_seq < self.count) {
            true
        } else {
            self.state = LoopState::Stopped;
            false
        }
    }
}

} // verus!
