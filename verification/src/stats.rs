//! The running statistics aggregator: one mutating operation (`update`) that
//! ingests a probe outcome, and pure queries over the accumulated state
//! (loss, extrema, average, median, jitter, sample standard deviation).
//!
//! All durations are whole nanoseconds. Every query is specified against the
//! mathematical sequence of recorded round-trip samples, so repeated queries
//! without an intervening `update` return identical values.

use vstd::prelude::*;

verus! {

use vstd::arithmetic::div_mod::lemma_div_is_ordered;
use vstd::arithmetic::div_mod::lemma_div_multiples_vanish;
use vstd::arithmetic::mul::lemma_mul_inequality;
use vstd::arithmetic::mul::lemma_mul_upper_bound;

/// Absolute difference of two durations.
pub open spec fn abs_diff_spec(a: u64, b: u64) -> u64 {
    if a >= b {
        (a - b) as u64
    } else {
        (b - a) as u64
    }
}

/// Sum of a sequence of durations, as a mathematical integer.
pub open spec fn sum_of(s: Seq<u64>) -> int
    decreases s.len(),
{
    if s.len() == 0 {
        0
    } else {
        sum_of(s.drop_last()) + s.last()
    }
}

/// Smallest element of a non-empty sequence.
pub open spec fn min_of(s: Seq<u64>) -> u64
    recommends
        s.len() > 0,
    decreases s.len(),
{
    if s.len() <= 1 {
        s[0]
    } else if s.last() < min_of(s.drop_last()) {
        s.last()
    } else {
        min_of(s.drop_last())
    }
}

/// Largest element of a sequence, or 0 when it is empty.
pub open spec fn max_of(s: Seq<u64>) -> u64
    decreases s.len(),
{
    if s.len() == 0 {
        0
    } else if s.last() > max_of(s.drop_last()) {
        s.last()
    } else {
        max_of(s.drop_last())
    }
}

/// Exponential smoothing of a jitter estimate `j` with a new inter-sample
/// difference `d`: weight 15/16 on the prior estimate, 1/16 on the new
/// difference. The result never exceeds the larger of the two inputs.
pub open spec fn smoothed(j: u64, d: u64) -> u64 {
    ((15 * (j as int) + d) / 16) as u64
}

/// Jitter after recording the samples `s`, in arrival order: undefined until
/// two samples exist; initialized to the first absolute difference between
/// consecutive samples; thereafter exponentially smoothed.
pub open spec fn jitter_of(s: Seq<u64>) -> Option<u64>
    decreases s.len(),
{
    if s.len() < 2 {
        None
    } else {
        let d = abs_diff_spec(s.last(), s[s.len() - 2]);
        match jitter_of(s.drop_last()) {
            None => Some(d),
            Some(j) => Some(smoothed(j, d)),
        }
    }
}

/// Insertion of a duration into an ascending sequence, in front of the first
/// element it does not exceed.
pub open spec fn insert_sorted(x: u64, s: Seq<u64>) -> Seq<u64>
    decreases s.len(),
{
    if s.len() == 0 {
        seq![x]
    } else if x <= s[0] {
        seq![x] + s
    } else {
        seq![s[0]] + insert_sorted(x, s.drop_first())
    }
}

/// The ascending reordering of a sequence of durations.
pub open spec fn sorted_version(s: Seq<u64>) -> Seq<u64>
    decreases s.len(),
{
    if s.len() == 0 {
        Seq::empty()
    } else {
        insert_sorted(s.last(), sorted_version(s.drop_last()))
    }
}

/// Middle value of the samples sorted ascending: for an odd count the middle
/// element, for an even count the mean of the two middle elements, rounded
/// down.
pub open spec fn median_of(s: Seq<u64>) -> u64
    recommends
        s.len() > 0,
{
    let t = sorted_version(s);
    let mid = s.len() as int / 2;
    if s.len() % 2 == 0 {
        (((t[mid - 1] as int) + (t[mid] as int)) / 2) as u64
    } else {
        t[mid]
    }
}

/// Whether a sequence of durations is ascending.
pub open spec fn is_ascending(s: Seq<u64>) -> bool {
    forall|i: int, j: int| 0 <= i < j < s.len() ==> s[i] <= s[j]
}

/// Every element of an insertion result is the inserted value or one of the
/// original elements.
proof fn lemma_insert_sorted_elems(x: u64, s: Seq<u64>, i: int)
    requires
        0 <= i < insert_sorted(x, s).len(),
    ensures
        insert_sorted(x, s)[i] == x || exists|k: int|
            0 <= k < s.len() && s[k] == insert_sorted(x, s)[i],
    decreases s.len(),
{
    lemma_insert_sorted_len(x, s);
    if s.len() == 0 {
    } else if x <= s[0] {
        if i > 0 {
            assert(insert_sorted(x, s)[i] == s[i - 1]);
        }
    } else {
        if i == 0 {
            assert(insert_sorted(x, s)[0] == s[0]);
        } else {
            let rest = s.drop_first();
            lemma_insert_sorted_len(x, rest);
            lemma_insert_sorted_elems(x, rest, i - 1);
            if insert_sorted(x, rest)[i - 1] != x {
                let k = choose|k: int|
                    0 <= k < rest.len() && rest[k] == insert_sorted(x, rest)[i - 1];
                assert(s[k + 1] == insert_sorted(x, s)[i]);
            }
        }
    }
}

/// Inserting into an ascending sequence keeps it ascending.
proof fn lemma_insert_sorted_ascending(x: u64, s: Seq<u64>)
    requires
        is_ascending(s),
    ensures
        is_ascending(insert_sorted(x, s)),
    decreases s.len(),
{
    lemma_insert_sorted_len(x, s);
    let t = insert_sorted(x, s);
    if s.len() == 0 {
    } else if x <= s[0] {
        assert forall|i: int, j: int| 0 <= i < j < t.len() implies t[i] <= t[j] by {
            if i > 0 {
                assert(t[i] == s[i - 1] && t[j] == s[j - 1]);
            } else {
                assert(t[j] == s[j - 1]);
            }
        }
    } else {
        let rest = s.drop_first();
        assert(is_ascending(rest)) by {
            assert forall|i: int, j: int| 0 <= i < j < rest.len() implies rest[i] <= rest[j] by {
                assert(rest[i] == s[i + 1] && rest[j] == s[j + 1]);
            }
        }
        lemma_insert_sorted_ascending(x, rest);
        lemma_insert_sorted_len(x, rest);
        let ins = insert_sorted(x, rest);
        assert forall|i: int, j: int| 0 <= i < j < t.len() implies t[i] <= t[j] by {
            if i == 0 {
                assert(t[j] == ins[j - 1]);
                lemma_insert_sorted_elems(x, rest, j - 1);
                if ins[j - 1] != x {
                    let k = choose|k: int| 0 <= k < rest.len() && rest[k] == ins[j - 1];
                    assert(rest[k] == s[k + 1]);
                }
            } else {
                assert(t[i] == ins[i - 1] && t[j] == ins[j - 1]);
            }
        }
    }
}

/// An insertion result holds exactly the inserted value on top of the
/// original elements.
proof fn lemma_insert_sorted_multiset(x: u64, s: Seq<u64>)
    ensures
        insert_sorted(x, s).to_multiset() == s.to_multiset().insert(x),
    decreases s.len(),
{
    broadcast use vstd::seq_lib::to_multiset_build;
    broadcast use vstd::seq_lib::lemma_multiset_commutative;
    broadcast use vstd::seq_lib::group_to_multiset_ensures;
    broadcast use vstd::multiset::group_multiset_axioms;

    if s.len() == 0 {
        assert(seq![x] =~= Seq::<u64>::empty().push(x));
        assert(s =~= Seq::<u64>::empty());
        assert(insert_sorted(x, s).to_multiset() =~= s.to_multiset().insert(x));
    } else if x <= s[0] {
        assert(seq![x] =~= Seq::<u64>::empty().push(x));
        assert((seq![x] + s).to_multiset() == seq![x].to_multiset().add(s.to_multiset()));
        assert((seq![x] + s).to_multiset() =~= s.to_multiset().insert(x));
    } else {
        let rest = s.drop_first();
        lemma_insert_sorted_multiset(x, rest);
        let ins = insert_sorted(x, rest);
        assert(seq![s[0]] =~= Seq::<u64>::empty().push(s[0]));
        assert((seq![s[0]] + ins).to_multiset() == seq![s[0]].to_multiset().add(ins.to_multiset()));
        assert(s =~= seq![s[0]] + rest);
        assert((seq![s[0]] + rest).to_multiset() == seq![s[0]].to_multiset().add(
            rest.to_multiset(),
        ));
        assert((seq![s[0]] + ins).to_multiset() =~= s.to_multiset().insert(x));
    }
}

/// What `median_of` reads is the input's own samples, ascending: the
/// reordering is ascending and a permutation of the input.
#[verifier::rlimit(50)]
pub proof fn lemma_sorted_version_correct(s: Seq<u64>)
    ensures
        is_ascending(sorted_version(s)),
        sorted_version(s).to_multiset() == s.to_multiset(),
    decreases s.len(),
{
    broadcast use vstd::seq_lib::to_multiset_build;
    broadcast use vstd::multiset::group_multiset_axioms;

    if s.len() > 0 {
        lemma_sorted_version_correct(s.drop_last());
        lemma_insert_sorted_ascending(s.last(), sorted_version(s.drop_last()));
        lemma_insert_sorted_multiset(s.last(), sorted_version(s.drop_last()));
        assert(s =~= s.drop_last().push(s.last()));
        assert(s == s.drop_last().push(s.last()));
        assert(s.drop_last().push(s.last()).to_multiset() =~= s.drop_last().to_multiset().insert(
            s.last(),
        ));
        assert(sorted_version(s).to_multiset() == s.drop_last().to_multiset().insert(s.last()));
        assert(s.to_multiset() == s.drop_last().push(s.last()).to_multiset());
        assert(s.drop_last().push(s.last()).to_multiset() == s.drop_last().to_multiset().insert(
            s.last(),
        ));
    } else {
        assert(s =~= Seq::<u64>::empty());
    }
}

/// Inserting grows a sequence by exactly one element.
pub proof fn lemma_insert_sorted_len(x: u64, s: Seq<u64>)
    ensures
        insert_sorted(x, s).len() == s.len() + 1,
    decreases s.len(),
{
    if s.len() > 0 && x > s[0] {
        lemma_insert_sorted_len(x, s.drop_first());
    }
}

/// Sorting keeps the length of a sequence.
pub proof fn lemma_sorted_version_len(s: Seq<u64>)
    ensures
        sorted_version(s).len() == s.len(),
    decreases s.len(),
{
    if s.len() > 0 {
        lemma_sorted_version_len(s.drop_last());
        lemma_insert_sorted_len(s.last(), sorted_version(s.drop_last()));
    }
}

/// When every element before position `i` is below `x` and the element at `i`
/// (if any) is not, `insert_sorted` puts `x` exactly at position `i`.
#[verifier::rlimit(100)]
pub proof fn lemma_insert_sorted_at(x: u64, s: Seq<u64>, i: int)
    requires
        0 <= i <= s.len(),
        forall|k: int| 0 <= k < i ==> s[k] < x,
        i < s.len() ==> x <= s[i],
    ensures
        insert_sorted(x, s) == s.insert(i, x),
    decreases i,
{
    s.insert_ensures(i, x);
    lemma_insert_sorted_len(x, s);
    if i == 0 {
        if s.len() == 0 {
            assert(insert_sorted(x, s) =~= s.insert(0, x));
        } else {
            assert(seq![x] + s =~= s.insert(0, x));
        }
    } else {
        assert(s[0] < x);
        let rest = s.drop_first();
        assert(forall|k: int| 0 <= k < i - 1 ==> rest[k] < x);
        lemma_insert_sorted_at(x, rest, i - 1);
        rest.insert_ensures(i - 1, x);
        assert(seq![s[0]] + rest.insert(i - 1, x) =~= s.insert(i, x));
    }
}

/// Squared deviation of sample `i` from the mean, scaled by the square of the
/// sample count `n` so that it stays an integer: `(n * s[i] - sum)^2`, which
/// equals `n^2 * (s[i] - mean)^2`.
pub open spec fn dev_term(s: Seq<u64>, i: int) -> int {
    let c = s.len() * s[i] - sum_of(s);
    c * c
}

/// Sum of the first `k` scaled squared deviations.
pub open spec fn sum_sq_dev(s: Seq<u64>, k: int) -> int
    decreases k,
{
    if k <= 0 {
        0
    } else {
        sum_sq_dev(s, k - 1) + dev_term(s, k - 1)
    }
}

/// Numerator of the Bessel-corrected sample variance, scaled by the square of
/// the sample count: the sum of all scaled squared deviations.
pub open spec fn variance_num(s: Seq<u64>) -> int {
    sum_sq_dev(s, s.len() as int)
}

/// The matching denominator: the scale factor `n^2` times the Bessel divisor
/// `n - 1`, so that `variance_num / variance_den` is the sample variance.
pub open spec fn variance_den(s: Seq<u64>) -> int {
    s.len() * s.len() * (s.len() - 1)
}

/// Partial sums of scaled squared deviations are non-negative.
pub proof fn lemma_sum_sq_dev_nonneg(s: Seq<u64>, k: int)
    ensures
        0 <= sum_sq_dev(s, k),
    decreases k,
{
    if k > 0 {
        lemma_sum_sq_dev_nonneg(s, k - 1);
        let c = s.len() * s[k - 1] - sum_of(s);
        assert(c * c >= 0) by (nonlinear_arith);
    }
}

/// Partial sums of scaled squared deviations grow with the number of terms.
pub proof fn lemma_sum_sq_dev_mono(s: Seq<u64>, k1: int, k2: int)
    requires
        0 <= k1 <= k2,
    ensures
        sum_sq_dev(s, k1) <= sum_sq_dev(s, k2),
    decreases k2 - k1,
{
    if k1 < k2 {
        lemma_sum_sq_dev_mono(s, k1, k2 - 1);
        let c = s.len() * s[k2 - 1] - sum_of(s);
        assert(c * c >= 0) by (nonlinear_arith);
    }
}

/// Lost probes per thousand transmitted, rounded down; 0 when nothing was
/// transmitted.
pub open spec fn loss_permille_of(transmitted: u32, received: u32) -> int {
    if transmitted == 0 {
        0
    } else {
        (transmitted - received) * 1000 / (transmitted as int)
    }
}

/// The sum of a sequence of durations is non-negative and at most the length
/// times the largest representable duration.
pub proof fn lemma_sum_of_bounds(s: Seq<u64>)
    ensures
        0 <= sum_of(s),
        sum_of(s) <= s.len() * (u64::MAX as int),
    decreases s.len(),
{
    if s.len() > 0 {
        lemma_sum_of_bounds(s.drop_last());
    }
}

/// The smallest element is a lower bound for every element.
pub proof fn lemma_min_of_le(s: Seq<u64>, i: int)
    requires
        0 <= i < s.len(),
    ensures
        min_of(s) <= s[i],
    decreases s.len(),
{
    if s.len() > 1 && i < s.len() - 1 {
        lemma_min_of_le(s.drop_last(), i);
    }
}

/// The largest element is an upper bound for every element.
pub proof fn lemma_max_of_ge(s: Seq<u64>, i: int)
    requires
        0 <= i < s.len(),
    ensures
        s[i] <= max_of(s),
    decreases s.len(),
{
    if s.len() > 1 && i < s.len() - 1 {
        lemma_max_of_ge(s.drop_last(), i);
    }
}

/// The aggregator's persistent state for one run.
pub struct PingStats {
    /// Probes attempted, success or failure.
    pub transmitted: u32,
    /// Probes that succeeded with a timing value.
    pub received: u32,
    /// Smallest recorded round-trip time; `None` until the first success.
    pub min_time: Option<u64>,
    /// Largest recorded round-trip time; 0 until the first success.
    pub max_time: u64,
    /// Every recorded round-trip time, in arrival order.
    pub rtt_values: Vec<u64>,
    /// Smoothed inter-sample variability; `None` until two successes exist.
    pub jitter: Option<u64>,
}

impl PingStats {
    /// Well-formedness: the counters and the derived fields agree with the
    /// recorded sample sequence. Established by `new`, preserved by `update`.
    pub open spec fn wf(self) -> bool {
        &&& self.received <= self.transmitted
        &&& self.rtt_values@.len() == self.received
        &&& self.min_time == (if self.received == 0 {
            None::<u64>
        } else {
            Some(min_of(self.rtt_values@))
        })
        &&& self.max_time == max_of(self.rtt_values@)
        &&& self.jitter == jitter_of(self.rtt_values@)
    }

    /// A fresh aggregator: nothing transmitted, nothing received.
    pub fn new() -> (r: PingStats)
        ensures
            r.wf(),
            r.transmitted == 0,
            r.received == 0,
            r.min_time is None,
            r.max_time == 0,
            r.rtt_values@ == Seq::<u64>::empty(),
            r.jitter is None,
    {
        PingStats {
            transmitted: 0,
            received: 0,
            min_time: None,
            max_time: 0,
            rtt_values: Vec::new(),
            jitter: None,
        }
    }

    /// Records one probe outcome. Every call increments `transmitted`; a
    /// success with a timing value additionally increments `received`,
    /// appends the sample, and refreshes the extrema and the jitter estimate.
    /// A failure changes nothing but `transmitted`.
    pub fn update(&mut self, success: bool, rtt: Option<u64>)
        requires
            old(self).wf(),
            old(self).transmitted < u32::MAX,
        ensures
            final(self).wf(),
            final(self).transmitted == old(self).transmitted + 1,
            success && rtt is Some ==> {
                &&& final(self).received == old(self).received + 1
                &&& final(self).rtt_values@ == old(self).rtt_values@.push(rtt->0)
            },
            !(success && rtt is Some) ==> {
                &&& final(self).received == old(self).received
                &&& final(self).rtt_values@ == old(self).rtt_values@
                &&& final(self).min_time == old(self).min_time
                &&& final(self).max_time == old(self).max_time
                &&& final(self).jitter == old(self).jitter
            },
    {
        self.transmitted = self.transmitted + 1;
        if success {
            if let Some(time) = rtt {
                self.received = self.received + 1;
                let ghost old_seq = self.rtt_values@;
                if self.rtt_values.len() > 0 {
                    let last = self.rtt_values[self.rtt_values.len() - 1];
                    let d = if time >= last {
                        time - last
                    } else {
                        last - time
                    };
                    self.jitter = match self.jitter {
                        None => Some(d),
                        Some(j) => {
                            let wide = (15u128 * (j as u128) + (d as u128)) / 16;
                            proof {
                                assert(15 * (j as int) + d <= 16 * (if j >= d {
                                    j as int
                                } else {
                                    d as int
                                })) by (nonlinear_arith);
                                assert(wide == smoothed(j, d));
                            }
                            Some(wide as u64)
                        },
                    };
                }
                self.rtt_values.push(time);
                self.min_time = Some(
                    match self.min_time {
                        None => time,
                        Some(m) => if time < m {
                            time
                        } else {
                            m
                        },
                    },
                );
                self.max_time = if time > self.max_time {
                    time
                } else {
                    self.max_time
                };
                proof {
                    assert(self.rtt_values@.drop_last() =~= old_seq);
                    assert(self.rtt_values@.last() == time);
                }
            }
        }
    }

    /// Total of all recorded round-trip times.
    pub fn total_time(&self) -> (r: u128)
        requires
            self.wf(),
        ensures
            r == sum_of(self.rtt_values@),
    {
        let ghost s = self.rtt_values@;
        let mut acc: u128 = 0;
        let mut i: usize = 0;
        proof {
            assert(s.take(0) =~= Seq::<u64>::empty());
        }
        while i < self.rtt_values.len()
            invariant
                s == self.rtt_values@,
                s.len() <= u32::MAX,
                i <= s.len(),
                acc == sum_of(s.take(i as int)),
            decreases s.len() - i,
        {
            proof {
                lemma_sum_of_bounds(s.take(i as int));
                lemma_mul_inequality(s.take(i as int).len() as int, u32::MAX as int, u64::MAX as int);
            }
            acc = acc + (self.rtt_values[i] as u128);
            proof {
                assert(s.take(i + 1 as int).drop_last() =~= s.take(i as int));
            }
            i = i + 1;
        }
        proof {
            assert(s.take(s.len() as int) =~= s);
        }
        acc
    }

    /// Mean recorded round-trip time, rounded down; `None` until the first
    /// success.
    pub fn average_time(&self) -> (r: Option<u64>)
        requires
            self.wf(),
        ensures
            r is None <==> self.received == 0,
            r is Some ==> r->0 == sum_of(self.rtt_values@) / (self.received as int),
    {
        if self.received == 0 {
            return None;
        }
        let total = self.total_time();
        let avg = total / (self.received as u128);
        proof {
            let s = self.rtt_values@;
            let n = self.received as int;
            lemma_sum_of_bounds(s);
            lemma_div_is_ordered(sum_of(s), n * (u64::MAX as int), n);
            lemma_div_multiples_vanish(u64::MAX as int, n);
        }
        Some(avg as u64)
    }

    /// Lost probes per thousand transmitted, rounded down: 1000 means every
    /// probe failed, 0 means none did (or nothing was transmitted yet).
    pub fn loss_permille(&self) -> (r: u32)
        requires
            self.wf(),
        ensures
            r == loss_permille_of(self.transmitted, self.received),
            r <= 1000,
    {
        if self.transmitted == 0 {
            return 0;
        }
        let lost = self.transmitted - self.received;
        let pm = (lost as u64) * 1000 / (self.transmitted as u64);
        proof {
            let t = self.transmitted as int;
            lemma_mul_inequality(lost as int, t, 1000);
            lemma_div_is_ordered((lost as int) * 1000, t * 1000, t);
            lemma_div_multiples_vanish(1000, t);
            assert((t * 1000) / t == 1000);
        }
        pm as u32
    }

    /// Middle recorded round-trip time by value: `None` until the first
    /// success; otherwise the middle element of the samples sorted ascending,
    /// or the mean of the two middle elements for an even count. The samples'
    /// arrival order is left untouched.
    pub fn median_time(&self) -> (r: Option<u64>)
        ensures
            r is None <==> self.rtt_values@.len() == 0,
            r is Some ==> r->0 == median_of(self.rtt_values@),
    {
        if self.rtt_values.len() == 0 {
            return None;
        }
        let sorted = sorted_copy(&self.rtt_values);
        proof {
            lemma_sorted_version_len(self.rtt_values@);
        }
        let len = sorted.len();
        let mid = len / 2;
        if len % 2 == 0 {
            let a = sorted[mid - 1];
            let b = sorted[mid];
            Some((((a as u128) + (b as u128)) / 2) as u64)
        } else {
            Some(sorted[mid])
        }
    }

    /// Sample standard deviation of the recorded round-trip times, rounded
    /// down: the integer square root of the Bessel-corrected sample variance
    /// (sum of squared deviations from the mean, divided by one less than the
    /// sample count). `None` with fewer than two samples, or in the extreme
    /// case that the scaled deviation sum no longer fits the machine's
    /// integer range.
    pub fn std_deviation(&self) -> (r: Option<u64>)
        requires
            self.wf(),
        ensures
            match r {
                None => self.received < 2 || variance_num(self.rtt_values@) > u128::MAX,
                Some(d) => {
                    &&& self.received >= 2
                    &&& variance_num(self.rtt_values@) <= u128::MAX
                    &&& (d as int) * (d as int) <= variance_num(self.rtt_values@) / variance_den(
                        self.rtt_values@,
                    )
                    &&& variance_num(self.rtt_values@) / variance_den(self.rtt_values@) < ((
                    d as int) + 1) * ((d as int) + 1)
                },
            },
    {
        if self.received < 2 {
            return None;
        }
        let ghost s = self.rtt_values@;
        let n = self.rtt_values.len();
        let total = self.total_time();
        let mut acc: u128 = 0;
        let mut i: usize = 0;
        while i < n
            invariant
                s == self.rtt_values@,
                n == s.len(),
                2 <= n <= u32::MAX,
                total == sum_of(s),
                i <= n,
                acc == sum_sq_dev(s, i as int),
            decreases n - i,
        {
            let x = self.rtt_values[i];
            proof {
                lemma_mul_upper_bound(n as int, u32::MAX as int, x as int, u64::MAX as int);
                lemma_sum_of_bounds(s);
                lemma_mul_inequality(s.len() as int, u32::MAX as int, u64::MAX as int);
            }
            let nx = (n as u128) * (x as u128);
            let c = if nx >= total {
                nx - total
            } else {
                total - nx
            };
            let ghost c0 = s.len() * s[i as int] - sum_of(s);
            proof {
                assert((c as int) * (c as int) == c0 * c0) by (nonlinear_arith)
                    requires
                        c as int == c0 || c as int == -c0,
                ;
            }
            let sq = match c.checked_mul(c) {
                Some(sq) => sq,
                None => {
                    proof {
                        lemma_sum_sq_dev_nonneg(s, i as int);
                        lemma_sum_sq_dev_mono(s, i as int + 1, s.len() as int);
                    }
                    return None;
                },
            };
            let new_acc = match acc.checked_add(sq) {
                Some(a) => a,
                None => {
                    proof {
                        lemma_sum_sq_dev_mono(s, i as int + 1, s.len() as int);
                    }
                    return None;
                },
            };
            acc = new_acc;
            i = i + 1;
        }
        proof {
            lemma_mul_upper_bound(n as int, u32::MAX as int, n as int, u32::MAX as int);
        }
        let nn = (n as u128) * (n as u128);
        proof {
            lemma_mul_upper_bound(
                nn as int,
                (u32::MAX as int) * (u32::MAX as int),
                (n - 1) as int,
                u32::MAX as int,
            );
        }
        let den = nn * ((n as u128) - 1);
        proof {
            assert((n as int) * (n as int) * ((n as int) - 1) > 0) by (nonlinear_arith)
                requires
                    2 <= n as int,
            ;
            assert(den as int == variance_den(s));
        }
        let q = acc / den;
        let d = isqrt_u128(q);
        Some(d as u64)
    }

    /// Renders the aggregate state into the plain figures of an end-of-run
    /// report. Each field carries exactly the value of the matching query on
    /// the current state.
    pub fn summary(&self) -> (r: PingSummary)
        requires
            self.wf(),
        ensures
            r.transmitted == self.transmitted,
            r.received == self.received,
            r.lost == self.transmitted - self.received,
            r.loss_permille == loss_permille_of(self.transmitted, self.received),
            r.min_ns == self.min_time,
            r.max_ns == (if self.received == 0 {
                None::<u64>
            } else {
                Some(self.max_time)
            }),
            r.avg_ns is None <==> self.received == 0,
            r.avg_ns is Some ==> r.avg_ns->0 == sum_of(self.rtt_values@) / (self.received as int),
            r.median_ns is None <==> self.received == 0,
            r.median_ns is Some ==> r.median_ns->0 == median_of(self.rtt_values@),
            match r.std_dev_ns {
                None => self.received < 2 || variance_num(self.rtt_values@) > u128::MAX,
                Some(d) => {
                    &&& self.received >= 2
                    &&& variance_num(self.rtt_values@) <= u128::MAX
                    &&& (d as int) * (d as int) <= variance_num(self.rtt_values@) / variance_den(
                        self.rtt_values@,
                    )
                    &&& variance_num(self.rtt_values@) / variance_den(self.rtt_values@) < ((
                    d as int) + 1) * ((d as int) + 1)
                },
            },
            r.jitter_ns == self.jitter,
    {
        PingSummary {
            transmitted: self.transmitted,
            received: self.received,
            lost: self.transmitted - self.received,
            loss_permille: self.loss_permille(),
            min_ns: self.min_time,
            max_ns: if self.received == 0 {
                None
            } else {
                Some(self.max_time)
            },
            avg_ns: self.average_time(),
            median_ns: self.median_time(),
            std_dev_ns: self.std_deviation(),
            jitter_ns: self.jitter,
        }
    }
}

/// The end-of-run summary: every figure a report needs, as plain values.
pub struct PingSummary {
    /// Probes attempted.
    pub transmitted: u32,
    /// Probes that succeeded.
    pub received: u32,
    /// Probes that failed.
    pub lost: u32,
    /// Lost probes per thousand transmitted, rounded down.
    pub loss_permille: u32,
    /// Smallest round-trip time, when any probe succeeded.
    pub min_ns: Option<u64>,
    /// Largest round-trip time, when any probe succeeded.
    pub max_ns: Option<u64>,
    /// Mean round-trip time, when any probe succeeded.
    pub avg_ns: Option<u64>,
    /// Median round-trip time, when any probe succeeded.
    pub median_ns: Option<u64>,
    /// Sample standard deviation, when at least two probes succeeded.
    pub std_dev_ns: Option<u64>,
    /// Smoothed inter-sample variability, when at least two probes succeeded.
    pub jitter_ns: Option<u64>,
}

/// Query determinism for the standard deviation: its contract brackets the
/// result between two squares, and only one non-negative integer fits between
/// them. Together with the other queries' contracts — each an equality with a
/// function of the state alone — repeated queries without an intervening
/// `update` return identical values.
pub proof fn lemma_floor_sqrt_unique(q: int, d1: int, d2: int)
    requires
        0 <= d1,
        0 <= d2,
        d1 * d1 <= q < (d1 + 1) * (d1 + 1),
        d2 * d2 <= q < (d2 + 1) * (d2 + 1),
    ensures
        d1 == d2,
{
    assert(d1 == d2) by (nonlinear_arith)
        requires
            0 <= d1,
            0 <= d2,
            d1 * d1 <= q < (d1 + 1) * (d1 + 1),
            d2 * d2 <= q < (d2 + 1) * (d2 + 1),
    ;
}

/// Counting law of the aggregator: in any well-formed state the number of
/// successes never exceeds the number of attempts, and exactly one sample is
/// recorded per success. `update` keeps every reachable state well-formed.
pub proof fn lemma_counting_law(st: PingStats)
    requires
        st.wf(),
    ensures
        st.received <= st.transmitted,
        st.rtt_values@.len() == st.received,
{
}

/// Extrema law of the aggregator: once any probe succeeded, the recorded
/// minimum and maximum bound every recorded sample.
pub proof fn lemma_extrema_law(st: PingStats)
    requires
        st.wf(),
        st.received > 0,
    ensures
        st.min_time is Some,
        forall|i: int|
            0 <= i < st.rtt_values@.len() ==> st.min_time->0 <= #[trigger] st.rtt_values@[i]
                <= st.max_time,
{
    assert forall|i: int|
        0 <= i < st.rtt_values@.len() implies st.min_time->0 <= #[trigger] st.rtt_values@[i]
        <= st.max_time by {
        lemma_min_of_le(st.rtt_values@, i);
        lemma_max_of_ge(st.rtt_values@, i);
    }
}

/// One more than the largest possible integer square root of a `u128` value.
const SQRT_LIMIT: u128 = 0x1_0000_0000_0000_0000;

/// Integer square root, rounded down, by bisection.
fn isqrt_u128(v: u128) -> (r: u128)
    ensures
        (r as int) * (r as int) <= v,
        v < ((r as int) + 1) * ((r as int) + 1),
        r < SQRT_LIMIT,
{
    if v == 0 {
        return 0;
    }
    let mut lo: u128 = 0;
    let mut hi: u128 = SQRT_LIMIT;
    proof {
        assert(v < (SQRT_LIMIT as int) * (SQRT_LIMIT as int)) by (nonlinear_arith)
            requires
                v <= u128::MAX,
        ;
    }
    while lo + 1 < hi
        invariant
            lo < hi <= SQRT_LIMIT,
            (lo as int) * (lo as int) <= v,
            v < (hi as int) * (hi as int),
        decreases hi - lo,
    {
        let mid = lo + (hi - lo) / 2;
        proof {
            assert((mid as int) * (mid as int) <= u128::MAX) by (nonlinear_arith)
                requires
                    mid < SQRT_LIMIT,
            ;
        }
        let sq = mid * mid;
        if sq <= v {
            lo = mid;
        } else {
            hi = mid;
        }
    }
    lo
}

/// Puts `x` into the ascending vector `v`, keeping it ascending.
fn insert_into_sorted(v: &mut Vec<u64>, x: u64)
    ensures
        final(v)@ == insert_sorted(x, old(v)@),
{
    let mut i: usize = 0;
    while i < v.len() && v[i] < x
        invariant
            i <= v@.len(),
            forall|k: int| 0 <= k < i ==> v@[k] < x,
        decreases v@.len() - i,
    {
        i = i + 1;
    }
    proof {
        lemma_insert_sorted_at(x, v@, i as int);
    }
    v.insert(i, x);
}

/// Builds the ascending reordering of `v` without touching `v` itself.
fn sorted_copy(v: &Vec<u64>) -> (r: Vec<u64>)
    ensures
        r@ == sorted_version(v@),
{
    let mut out: Vec<u64> = Vec::new();
    let mut i: usize = 0;
    proof {
        assert(v@.take(0) =~= Seq::<u64>::empty());
    }
    while i < v.len()
        invariant
            i <= v@.len(),
            out@ == sorted_version(v@.take(i as int)),
        decreases v@.len() - i,
    {
        insert_into_sorted(&mut out, v[i]);
        proof {
            assert(v@.take(i + 1 as int).drop_last() =~= v@.take(i as int));
            assert(v@.take(i + 1 as int).last() == v@[i as int]);
        }
        i = i + 1;
    }
    proof {
        assert(v@.take(v@.len() as int) =~= v@);
    }
    out
}

} // verus!
