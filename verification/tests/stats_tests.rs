//! Tests of the statistics aggregator.

use tcping::stats::PingStats;

const MS: u64 = 1_000_000;

fn stats_with(samples: &[u64]) -> PingStats {
    let mut st = PingStats::new();
    for &s in samples {
        st.update(true, Some(s));
    }
    st
}

#[test]
fn new_aggregator_is_empty() {
    let st = PingStats::new();
    assert_eq!(st.transmitted, 0);
    assert_eq!(st.received, 0);
    assert_eq!(st.min_time, None);
    assert_eq!(st.max_time, 0);
    assert!(st.rtt_values.is_empty());
    assert_eq!(st.jitter, None);
}

#[test]
fn counting_invariant_under_mixed_outcomes() {
    let mut st = PingStats::new();
    let outcomes = [
        (true, Some(10 * MS)),
        (false, None),
        (true, Some(30 * MS)),
        (false, None),
        (false, None),
        (true, Some(20 * MS)),
    ];
    for &(ok, rtt) in outcomes.iter() {
        st.update(ok, rtt);
        assert!(st.received <= st.transmitted);
        assert_eq!(st.rtt_values.len() as u32, st.received);
    }
    assert_eq!(st.transmitted, 6);
    assert_eq!(st.received, 3);
}

#[test]
fn success_without_timing_only_counts_the_attempt() {
    let mut st = PingStats::new();
    st.update(true, None);
    assert_eq!(st.transmitted, 1);
    assert_eq!(st.received, 0);
    assert!(st.rtt_values.is_empty());
}

#[test]
fn extrema_track_min_and_max() {
    let st = stats_with(&[20 * MS, 10 * MS, 30 * MS]);
    assert_eq!(st.min_time, Some(10 * MS));
    assert_eq!(st.max_time, 30 * MS);
}

#[test]
fn average_of_three_samples() {
    let st = stats_with(&[10 * MS, 20 * MS, 30 * MS]);
    assert_eq!(st.average_time(), Some(20 * MS));
    assert_eq!(st.total_time(), 60 * MS as u128);
}

#[test]
fn average_undefined_without_samples() {
    let mut st = PingStats::new();
    assert_eq!(st.average_time(), None);
    st.update(false, None);
    assert_eq!(st.average_time(), None);
}

#[test]
fn median_of_odd_count() {
    let st = stats_with(&[10 * MS, 20 * MS, 30 * MS]);
    assert_eq!(st.median_time(), Some(20 * MS));
}

#[test]
fn median_of_even_count() {
    let st = stats_with(&[10 * MS, 20 * MS, 30 * MS, 40 * MS]);
    assert_eq!(st.median_time(), Some(25 * MS));
}

#[test]
fn median_sorts_a_copy_only() {
    let st = stats_with(&[30 * MS, 10 * MS, 20 * MS]);
    assert_eq!(st.median_time(), Some(20 * MS));
    assert_eq!(st.rtt_values, vec![30 * MS, 10 * MS, 20 * MS]);
}

#[test]
fn median_undefined_without_samples() {
    let st = PingStats::new();
    assert_eq!(st.median_time(), None);
}

#[test]
fn jitter_initialized_to_first_difference() {
    let st = stats_with(&[100 * MS, 120 * MS]);
    assert_eq!(st.jitter, Some(20 * MS));
}

#[test]
fn jitter_smoothed_fifteen_sixteenths() {
    let st = stats_with(&[100 * MS, 120 * MS, 110 * MS]);
    assert_eq!(st.jitter, Some(19_375_000));
}

#[test]
fn jitter_undefined_until_two_samples() {
    let st = stats_with(&[100 * MS]);
    assert_eq!(st.jitter, None);
}

#[test]
fn jitter_uses_arrival_order_not_sorted_order() {
    let mut st = stats_with(&[120 * MS, 100 * MS]);
    assert_eq!(st.jitter, Some(20 * MS));
    st.update(false, None);
    assert_eq!(st.jitter, Some(20 * MS));
}

#[test]
fn std_deviation_of_three_samples() {
    let st = stats_with(&[10 * MS, 20 * MS, 30 * MS]);
    assert_eq!(st.std_deviation(), Some(10 * MS));
}

#[test]
fn std_deviation_undefined_below_two_samples() {
    let st = stats_with(&[10 * MS]);
    assert_eq!(st.std_deviation(), None);
    assert_eq!(PingStats::new().std_deviation(), None);
}

#[test]
fn loss_of_seven_in_ten() {
    let mut st = PingStats::new();
    for i in 0..10 {
        if i < 7 {
            st.update(true, Some(10 * MS));
        } else {
            st.update(false, None);
        }
    }
    assert_eq!(st.transmitted, 10);
    assert_eq!(st.received, 7);
    assert_eq!(st.loss_permille(), 300);
}

#[test]
fn loss_defined_as_zero_before_any_attempt() {
    let st = PingStats::new();
    assert_eq!(st.loss_permille(), 0);
}

#[test]
fn queries_are_idempotent() {
    let st = stats_with(&[30 * MS, 10 * MS, 20 * MS, 40 * MS]);
    assert_eq!(st.median_time(), st.median_time());
    assert_eq!(st.std_deviation(), st.std_deviation());
    assert_eq!(st.average_time(), st.average_time());
    assert_eq!(st.loss_permille(), st.loss_permille());
}

#[test]
fn summary_collects_every_figure() {
    let st = stats_with(&[10 * MS, 20 * MS, 30 * MS]);
    let s = st.summary();
    assert_eq!(s.transmitted, 3);
    assert_eq!(s.received, 3);
    assert_eq!(s.lost, 0);
    assert_eq!(s.loss_permille, 0);
    assert_eq!(s.min_ns, Some(10 * MS));
    assert_eq!(s.max_ns, Some(30 * MS));
    assert_eq!(s.avg_ns, Some(20 * MS));
    assert_eq!(s.median_ns, Some(20 * MS));
    assert_eq!(s.std_dev_ns, Some(10 * MS));
    assert_eq!(s.jitter_ns, Some(10 * MS));
}
