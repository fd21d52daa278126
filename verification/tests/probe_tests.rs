//! Tests of outcome classification and the probe-loop state machine.

use tcping::probe::check_timeout;
use tcping::probe::classify_outcome;
use tcping::probe::ConnectStatus;
use tcping::probe::LoopState;
use tcping::probe::ProbeError;
use tcping::probe::ProbeLoop;
use tcping::probe::ProbeOutcome;

const MS: u64 = 1_000_000;

#[test]
fn timeout_check_compares_against_whole_milliseconds() {
    assert!(check_timeout(1_000_000, 1));
    assert!(!check_timeout(999_999, 1));
    assert!(check_timeout(0, 0));
    assert!(!check_timeout(u64::MAX - 1, u64::MAX));
}

#[test]
fn classify_success_within_budget() {
    let r = classify_outcome(ConnectStatus::Connected, 12 * MS, 1000);
    assert_eq!(r, ProbeOutcome::Success(12 * MS));
}

#[test]
fn classify_timeout_wins_over_late_success() {
    let r = classify_outcome(ConnectStatus::Connected, 1000 * MS, 1000);
    assert_eq!(r, ProbeOutcome::Failure(ProbeError::ConnectTimeout));
}

#[test]
fn classify_refused_and_other_failures() {
    assert_eq!(
        classify_outcome(ConnectStatus::Refused, 1 * MS, 1000),
        ProbeOutcome::Failure(ProbeError::ConnectRefused)
    );
    assert_eq!(
        classify_outcome(ConnectStatus::OtherError, 1 * MS, 1000),
        ProbeOutcome::Failure(ProbeError::ConnectOther)
    );
    assert_eq!(
        classify_outcome(ConnectStatus::TimedOut, 1 * MS, 1000),
        ProbeOutcome::Failure(ProbeError::ConnectTimeout)
    );
}

#[test]
fn fresh_loop_is_running_from_zero() {
    let pl = ProbeLoop::new(4);
    assert_eq!(pl.count, 4);
    assert_eq!(pl.next_seq, 0);
    assert_eq!(pl.state, LoopState::Running);
    assert_eq!(pl.stats.transmitted, 0);
}

#[test]
fn unbounded_loop_stops_on_cancellation_without_waiting() {
    let mut pl = ProbeLoop::new(0);
    for i in 0..3u64 {
        assert!(pl.begin_probe(true));
        pl.record_outcome(ProbeOutcome::Success(10 * MS + i));
        assert!(pl.begin_wait(true));
    }
    assert!(!pl.begin_probe(false));
    assert_eq!(pl.state, LoopState::Stopped);
    assert_eq!(pl.stats.transmitted, 3);
    assert_eq!(pl.stats.received, 3);
    assert_eq!(pl.stats.rtt_values.len(), 3);
}

#[test]
fn cancellation_before_the_wait_skips_it() {
    let mut pl = ProbeLoop::new(0);
    assert!(pl.begin_probe(true));
    pl.record_outcome(ProbeOutcome::Success(10 * MS));
    assert!(!pl.begin_wait(false));
    assert_eq!(pl.state, LoopState::Stopped);
    assert_eq!(pl.stats.transmitted, 1);
}

#[test]
fn five_timeouts_make_a_total_loss_summary() {
    let mut pl = ProbeLoop::new(5);
    let mut probes = 0;
    while pl.begin_probe(true) {
        pl.record_outcome(ProbeOutcome::Failure(ProbeError::ConnectTimeout));
        probes += 1;
        if !pl.begin_wait(true) {
            break;
        }
    }
    assert_eq!(probes, 5);
    assert_eq!(pl.state, LoopState::Stopped);
    let s = pl.stats.summary();
    assert_eq!(s.transmitted, 5);
    assert_eq!(s.received, 0);
    assert_eq!(s.loss_permille, 1000);
    assert_eq!(s.min_ns, None);
    assert_eq!(s.max_ns, None);
    assert_eq!(s.avg_ns, None);
    assert_eq!(s.median_ns, None);
    assert_eq!(s.std_dev_ns, None);
    assert_eq!(s.jitter_ns, None);
}

#[test]
fn bounded_loop_refuses_probes_past_the_limit() {
    let mut pl = ProbeLoop::new(2);
    assert!(pl.begin_probe(true));
    pl.record_outcome(ProbeOutcome::Success(10 * MS));
    assert!(pl.begin_wait(true));
    assert!(pl.begin_probe(true));
    pl.record_outcome(ProbeOutcome::Success(20 * MS));
    assert!(!pl.begin_wait(true));
    assert_eq!(pl.state, LoopState::Stopped);
    assert_eq!(pl.stats.transmitted, 2);
}
