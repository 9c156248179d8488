//! Exact summary statistics over latency samples (microseconds).
//!
//! The summary keeps the count, minimum, maximum, sum and the "spread"
//! `n * sum(x^2) - sum(x)^2`, which equals `n^2` times the population
//! variance. Mean and standard deviation follow from these as
//! `sum / n` and `sqrt(spread) / n`.

use vstd::prelude::*;

verus! {

/// Sum of all samples.
pub open spec fn sum_of(s: Seq<u64>) -> int
    decreases s.len(),
{
    if s.len() == 0 {
        0
    } else {
        sum_of(s.drop_last()) + s.last() as int
    }
}

/// Sum of the squares of all samples.
pub open spec fn sum_sq_of(s: Seq<u64>) -> int
    decreases s.len(),
{
    if s.len() == 0 {
        0
    } else {
        sum_sq_of(s.drop_last()) + (s.last() as int) * (s.last() as int)
    }
}

/// Sum of squared deviations of the samples from `c`.
pub open spec fn sq_dev_of(s: Seq<u64>, c: int) -> int
    decreases s.len(),
{
    if s.len() == 0 {
        0
    } else {
        sq_dev_of(s.drop_last(), c) + (s.last() as int - c) * (s.last() as int - c)
    }
}

/// Smallest sample (meaningful for a non-empty sequence).
pub open spec fn min_of(s: Seq<u64>) -> int
    decreases s.len(),
{
    if s.len() <= 1 {
        if s.len() == 1 { s[0] as int } else { 0 }
    } else {
        let m = min_of(s.drop_last());
        if (s.last() as int) < m { s.last() as int } else { m }
    }
}

/// Largest sample (meaningful for a non-empty sequence).
pub open spec fn max_of(s: Seq<u64>) -> int
    decreases s.len(),
{
    if s.len() <= 1 {
        if s.len() == 1 { s[0] as int } else { 0 }
    } else {
        let m = max_of(s.drop_last());
        if (s.last() as int) > m { s.last() as int } else { m }
    }
}

/// `n^2` times the population variance: `n * sum(x^2) - sum(x)^2`.
pub open spec fn spread_of(s: Seq<u64>) -> int {
    s.len() * sum_sq_of(s) - sum_of(s) * sum_of(s)
}

/// The exact moments of `s` fit in 128 bits.
pub open spec fn moments_fit(s: Seq<u64>) -> bool {
    s.len() * sum_sq_of(s) <= u128::MAX
}

/// Summary of a non-empty sample sequence.
pub struct Summary {
    pub count: usize,
    pub min: u64,
    pub max: u64,
    pub sum: u128,
    pub spread: u128,
}

impl Summary {
    /// The summary describes exactly the samples `s`.
    pub open spec fn describes(self, s: Seq<u64>) -> bool {
        &&& self.count == s.len()
        &&& self.min == min_of(s)
        &&& self.max == max_of(s)
        &&& self.sum == sum_of(s)
        &&& self.spread == spread_of(s)
    }
}

/// Expands the squared deviations from `c` into moments; they are never negative.
pub proof fn lemma_sq_dev(s: Seq<u64>, c: int)
    ensures
        sq_dev_of(s, c) == sum_sq_of(s) - 2 * c * sum_of(s) + s.len() * c * c,
        sq_dev_of(s, c) >= 0,
    decreases s.len(),
{
    if s.len() > 0 {
        let p = s.drop_last();
        lemma_sq_dev(p, c);
        let x = s.last() as int;
        let k = p.len() as int;
        let q = sum_sq_of(p);
        let t = sum_of(p);
        assert((q + x * x) - 2 * c * (t + x) + (k + 1) * c * c == (q - 2 * c * t + k * c * c) + (x
            - c) * (x - c)) by (nonlinear_arith);
        assert((x - c) * (x - c) >= 0) by (nonlinear_arith);
    }
}

/// The spread is never negative: `sum(x)^2 <= n * sum(x^2)`.
pub proof fn lemma_spread_nonneg(s: Seq<u64>)
    ensures
        spread_of(s) >= 0,
    decreases s.len(),
{
    if s.len() > 0 {
        let p = s.drop_last();
        let x = s.last() as int;
        lemma_spread_nonneg(p);
        lemma_sq_dev(p, x);
        let k = p.len() as int;
        let q = sum_sq_of(p);
        let t = sum_of(p);
        assert((k + 1) * (q + x * x) - (t + x) * (t + x) == (k * q - t * t) + (q - 2 * x * t + k * x
            * x)) by (nonlinear_arith);
    }
}

/// Every sample lies between the minimum and the maximum, and so does the mean:
/// `min * n <= sum <= max * n`.
pub proof fn lemma_min_mean_max(s: Seq<u64>)
    requires
        s.len() > 0,
    ensures
        forall|i: int| 0 <= i < s.len() ==> min_of(s) <= #[trigger] s[i] <= max_of(s),
        min_of(s) * s.len() <= sum_of(s) <= max_of(s) * s.len(),
        0 <= min_of(s) <= max_of(s) <= u64::MAX,
    decreases s.len(),
{
    if s.len() > 1 {
        let p = s.drop_last();
        lemma_min_mean_max(p);
        let k = p.len() as int;
        let lo = min_of(s);
        let hi = max_of(s);
        let plo = min_of(p);
        let phi = max_of(p);
        let t = sum_of(p);
        let x = s.last() as int;
        assert(lo * k <= plo * k) by (nonlinear_arith)
            requires
                lo <= plo,
                k >= 0,
        ;
        assert(phi * k <= hi * k) by (nonlinear_arith)
            requires
                phi <= hi,
                k >= 0,
        ;
        assert(lo * (k + 1) == lo * k + lo) by (nonlinear_arith);
        assert(hi * (k + 1) == hi * k + hi) by (nonlinear_arith);
        assert forall|i: int| 0 <= i < s.len() implies min_of(s) <= #[trigger] s[i] <= max_of(s) by {
            if i < k {
                assert(s[i] == p[i]);
            }
        }
    } else {
        assert(sum_of(s.drop_last()) == 0);
    }
}

/// The whole law for summaries: for non-empty samples the mean lies between
/// the minimum and the maximum (`min * n <= sum <= max * n`) and the variance
/// (hence the standard deviation) is never negative.
pub proof fn lemma_summary_bounds(s: Seq<u64>)
    requires
        s.len() > 0,
    ensures
        min_of(s) * s.len() <= sum_of(s) <= max_of(s) * s.len(),
        min_of(s) <= max_of(s),
        spread_of(s) >= 0,
{
    lemma_min_mean_max(s);
    lemma_spread_nonneg(s);
}

/// Samples that all equal `v`: the mean is `v` (`sum == n * v`), the minimum
/// and maximum are `v`, and the variance is zero.
pub proof fn lemma_constant_samples(s: Seq<u64>, v: u64)
    requires
        s.len() > 0,
        forall|i: int| 0 <= i < s.len() ==> s[i] == v,
    ensures
        sum_of(s) == s.len() * v,
        sum_sq_of(s) == s.len() * v * v,
        min_of(s) == v,
        max_of(s) == v,
        spread_of(s) == 0,
    decreases s.len(),
{
    let n = s.len() as int;
    if s.len() > 1 {
        let p = s.drop_last();
        assert forall|i: int| 0 <= i < p.len() implies p[i] == v by {
            assert(p[i] == s[i]);
        }
        lemma_constant_samples(p, v);
        assert((n - 1) * v + v == n * v) by (nonlinear_arith);
        assert((n - 1) * v * v + v * v == n * v * v) by (nonlinear_arith);
    } else {
        assert(sum_of(s.drop_last()) == 0);
        assert(sum_sq_of(s.drop_last()) == 0);
    }
    assert(n * (n * v * v) - (n * v) * (n * v) == 0) by (nonlinear_arith);
}

/// A single sample `x`: the minimum, mean and maximum are `x` and the
/// variance is zero.
pub proof fn lemma_single_sample(x: u64)
    ensures
        min_of(seq![x]) == x,
        max_of(seq![x]) == x,
        sum_of(seq![x]) == x,
        spread_of(seq![x]) == 0,
{
    lemma_constant_samples(seq![x], x);
}

/// A sum of `n` samples is at most `n * u64::MAX`.
pub proof fn lemma_sum_bound(s: Seq<u64>)
    ensures
        0 <= sum_of(s) <= s.len() * (u64::MAX as int),
        0 <= sum_sq_of(s),
    decreases s.len(),
{
    if s.len() > 0 {
        lemma_sum_bound(s.drop_last());
        let x = s.last() as int;
        assert(x * x >= 0) by (nonlinear_arith);
    }
}

proof fn lemma_sum_sq_prefix(s: Seq<u64>, i: int)
    requires
        0 <= i <= s.len(),
    ensures
        sum_sq_of(s.take(i)) <= sum_sq_of(s),
    decreases s.len(),
{
    if i < s.len() {
        let p = s.drop_last();
        assert(s.take(i) =~= p.take(i));
        lemma_sum_sq_prefix(p, i);
        let x = s.last() as int;
        assert(x * x >= 0) by (nonlinear_arith);
    } else {
        assert(s.take(i) =~= s);
    }
}

/// Tells whether the exact moments of `samples` fit in 128 bits, which
/// `summarize` needs.
pub fn moments_fit_in(samples: &Vec<u64>) -> (r: bool)
    requires
        samples.len() > 0,
    ensures
        r == moments_fit(samples@),
{
    let n = samples.len();
    let limit: u128 = u128::MAX / (n as u128);
    proof {
        let m = u128::MAX as int;
        let nn = n as int;
        let l = limit as int;
        assert(nn * l <= m && nn * (l + 1) > m) by (nonlinear_arith)
            requires
                nn > 0,
                l == m / nn,
        ;
    }
    let mut sq: u128 = 0;
    let mut i: usize = 0;
    while i < n
        invariant
            n == samples.len(),
            n > 0,
            0 <= i <= n,
            limit == u128::MAX / (n as u128),
            n * limit <= u128::MAX,
            n * (limit + 1) > u128::MAX,
            sq == sum_sq_of(samples@.take(i as int)),
            sq <= limit,
        decreases n - i,
    {
        let x = samples[i];
        assert((x as int) * (x as int) <= u128::MAX) by (nonlinear_arith)
            requires
                0 <= x <= u64::MAX,
        ;
        let x2: u128 = (x as u128) * (x as u128);
        assert(samples@.take(i as int + 1).drop_last() =~= samples@.take(i as int));
        if x2 > limit - sq {
            proof {
                lemma_sum_sq_prefix(samples@, i as int + 1);
                let t = sum_sq_of(samples@);
                let nn = n as int;
                let l = limit as int;
                assert(nn * t >= nn * (l + 1)) by (nonlinear_arith)
                    requires
                        t >= l + 1,
                        nn > 0,
                ;
            }
            return false;
        }
        sq = sq + x2;
        i = i + 1;
    }
    proof {
        assert(samples@.take(n as int) =~= samples@);
        let nn = n as int;
        let l = limit as int;
        let t = sq as int;
        assert(nn * t <= nn * l) by (nonlinear_arith)
            requires
                t <= l,
                nn > 0,
        ;
    }
    true
}

/// Computes the exact summary of a non-empty sample sequence: count,
/// minimum, maximum, sum and spread. The minimum and maximum are each
/// checked against every sample.
pub fn summarize(samples: &Vec<u64>) -> (r: Summary)
    requires
        samples.len() > 0,
        moments_fit(samples@),
    ensures
        r.describes(samples@),
{
    let n = samples.len();
    let ghost s = samples@;
    proof {
        lemma_sum_sq_prefix(s, 0);
        lemma_sum_bound(s);
        lemma_spread_nonneg(s);
        let nn = n as int;
        let t = sum_sq_of(s);
        assert(t <= nn * t) by (nonlinear_arith)
            requires
                nn >= 1,
                t >= 0,
        ;
    }
    let mut sum: u128 = 0;
    let mut sq: u128 = 0;
    let mut lo: u64 = samples[0];
    let mut hi: u64 = samples[0];
    let mut i: usize = 0;
    while i < n
        invariant
            s == samples@,
            n == s.len(),
            n > 0,
            0 <= i <= n,
            moments_fit(s),
            sum_sq_of(s) <= u128::MAX,
            sum == sum_of(s.take(i as int)),
            sq == sum_sq_of(s.take(i as int)),
            i > 0 ==> lo == min_of(s.take(i as int)),
            i > 0 ==> hi == max_of(s.take(i as int)),
            i == 0 ==> lo == s[0] && hi == s[0],
        decreases n - i,
    {
        let x = samples[i];
        proof {
            let t = s.take(i as int + 1);
            assert(t.drop_last() =~= s.take(i as int));
            lemma_sum_bound(t);
            lemma_sum_sq_prefix(s, i as int + 1);
            assert(i as int * (u64::MAX as int) <= usize::MAX as int * (u64::MAX as int))
                by (nonlinear_arith)
                requires
                    0 <= i <= usize::MAX,
            ;
            if i == 0 {
                assert(t =~= seq![x]);
            }
        }
        sum = sum + x as u128;
        sq = sq + (x as u128) * (x as u128);
        if i == 0 || x < lo {
            lo = x;
        }
        if i == 0 || x > hi {
            hi = x;
        }
        i = i + 1;
    }
    proof {
        assert(s.take(n as int) =~= s);
    }
    let spread: u128 = (n as u128) * sq - sum * sum;
    Summary { count: n, min: lo, max: hi, sum, spread }
}

} // verus!
