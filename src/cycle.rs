//! One measurement cycle: `limit` connect timings averaged into one sample.
//!
//! The caller performs each timed connect and hands the elapsed time to
//! `record`; the tally decides when the cycle is complete and what its
//! average is.

use vstd::prelude::*;
use crate::stats::{sum_of, lemma_sum_bound, lemma_constant_samples};

verus! {

/// Why a cycle cannot be run.
#[derive(PartialEq, Eq, Structural, Clone, Copy, Debug)]
pub enum CycleError {
    /// A cycle of zero connect attempts has no average.
    ZeroLimit,
}

/// Running tally of the connect timings of one cycle.
pub struct CycleTally {
    limit: u16,
    taken: u16,
    total: u128,
    times: Ghost<Seq<u64>>,
}

impl View for CycleTally {
    type V = Seq<u64>;

    /// The elapsed times recorded so far, in order.
    closed spec fn view(&self) -> Seq<u64> {
        self.times@
    }
}

impl CycleTally {
    /// Number of connect attempts that make up the cycle.
    pub closed spec fn limit_spec(&self) -> nat {
        self.limit as nat
    }

    /// The running total is the sum of the recorded times, of which there
    /// are no more than the limit.
    pub closed spec fn wf(&self) -> bool {
        &&& self.limit > 0
        &&& self.taken as nat == self.times@.len()
        &&& self.taken <= self.limit
        &&& self.total as int == sum_of(self.times@)
    }

    /// Starts a cycle of `limit` attempts; zero attempts are refused.
    pub fn new(limit: u16) -> (r: Result<CycleTally, CycleError>)
        ensures
            limit == 0 <==> r is Err,
            r is Err ==> r == Err::<CycleTally, CycleError>(CycleError::ZeroLimit),
            r matches Ok(t) ==> t.wf() && t.limit_spec() == limit && t@ == Seq::<u64>::empty(),
    {
        if limit == 0 {
            Err(CycleError::ZeroLimit)
        } else {
            Ok(CycleTally { limit, taken: 0, total: 0, times: Ghost(Seq::empty()) })
        }
    }

    /// Number of attempts the cycle is made of.
    pub fn limit(&self) -> (r: u16)
        ensures
            r == self.limit_spec(),
    {
        self.limit
    }

    /// All attempts of the cycle have been recorded.
    pub fn is_complete(&self) -> (r: bool)
        requires
            self.wf(),
        ensures
            r == (self@.len() == self.limit_spec()),
    {
        self.taken == self.limit
    }

    /// Records the elapsed time of one more attempt.
    pub fn record(&mut self, elapsed: u64)
        requires
            old(self).wf(),
            old(self)@.len() < old(self).limit_spec(),
        ensures
            final(self).wf(),
            final(self).limit_spec() == old(self).limit_spec(),
            final(self)@ == old(self)@.push(elapsed),
    {
        let ghost s = self.times@.push(elapsed);
        proof {
            assert(s.drop_last() =~= self.times@);
            lemma_sum_bound(s);
            assert(s.len() * (u64::MAX as int) <= 65535 * (u64::MAX as int)) by (nonlinear_arith)
                requires
                    s.len() <= 65535,
            ;
        }
        self.total = self.total + elapsed as u128;
        self.taken = self.taken + 1;
        self.times = Ghost(s);
    }

    /// The cycle's sample: the integer mean of its recorded times.
    pub fn average(&self) -> (r: u64)
        requires
            self.wf(),
            self@.len() == self.limit_spec(),
        ensures
            r == sum_of(self@) / (self.limit_spec() as int),
    {
        proof {
            lemma_sum_bound(self.times@);
            let n = self.limit as int;
            let t = self.total as int;
            assert(t / n <= u64::MAX) by (nonlinear_arith)
                requires
                    n > 0,
                    0 <= t <= n * (u64::MAX as int),
            ;
        }
        (self.total / (self.limit as u128)) as u64
    }
}

/// A cycle whose attempts all took the same time `d` averages to `d`,
/// whatever the number of attempts.
pub proof fn lemma_cycle_of_equal_times(times: Seq<u64>, d: u64)
    requires
        times.len() > 0,
        forall|i: int| 0 <= i < times.len() ==> times[i] == d,
    ensures
        sum_of(times) / (times.len() as int) == d,
{
    lemma_constant_samples(times, d);
    let n = times.len() as int;
    assert((n * d) / n == d) by (nonlinear_arith)
        requires
            n > 0,
    ;
}

} // verus!
