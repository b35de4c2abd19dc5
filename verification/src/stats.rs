//! Running latency statistics: loss rate and min/max/avg over the
//! successful probes of a scan.
//!
//! Latencies are microseconds; `0` is the sentinel for a failed attempt,
//! so the aggregate holds one entry per attempt and the successes are
//! exactly the non-zero entries.

use vstd::prelude::*;

verus! {

/// Number of successful (non-zero) entries in a latency record.
pub open spec fn success_count(s: Seq<u64>) -> nat
    decreases s.len(),
{
    if s.len() == 0 {
        0
    } else {
        success_count(s.drop_last()) + if s.last() > 0 {
            1nat
        } else {
            0nat
        }
    }
}

/// Sum of the successful (non-zero) entries.
pub open spec fn success_sum(s: Seq<u64>) -> int
    decreases s.len(),
{
    if s.len() == 0 {
        0
    } else {
        success_sum(s.drop_last()) + if s.last() > 0 {
            s.last() as int
        } else {
            0
        }
    }
}

/// Least successful entry; 0 when there is no success.
pub open spec fn success_min(s: Seq<u64>) -> u64
    decreases s.len(),
{
    if s.len() == 0 {
        0
    } else {
        let rest = success_min(s.drop_last());
        if s.last() > 0 && (success_count(s.drop_last()) == 0 || s.last() < rest) {
            s.last()
        } else {
            rest
        }
    }
}

/// Greatest successful entry; 0 when there is no success.
pub open spec fn success_max(s: Seq<u64>) -> u64
    decreases s.len(),
{
    if s.len() == 0 {
        0
    } else {
        let rest = success_max(s.drop_last());
        if s.last() > 0 && (success_count(s.drop_last()) == 0 || s.last() > rest) {
            s.last()
        } else {
            rest
        }
    }
}

proof fn lemma_success_count_le_len(s: Seq<u64>)
    ensures
        success_count(s) <= s.len(),
    decreases s.len(),
{
    if s.len() > 0 {
        lemma_success_count_le_len(s.drop_last());
    }
}

proof fn lemma_success_sum_bound(s: Seq<u64>)
    ensures
        0 <= success_sum(s) <= success_count(s) * (u64::MAX as int),
    decreases s.len(),
{
    if s.len() > 0 {
        lemma_success_sum_bound(s.drop_last());
        assert(success_count(s) * (u64::MAX as int) == success_count(s.drop_last()) * (
        u64::MAX as int) + (success_count(s) - success_count(s.drop_last())) * (u64::MAX as int))
            by (nonlinear_arith);
    }
}

/// Outcome of a finished scan: attempt and success counts, the loss rate
/// in hundredths of a percent, and min/max/avg latency in microseconds
/// over the successful attempts (all zero when nothing succeeded).
#[derive(Clone, Copy, Debug, PartialEq, Eq, Structural)]
pub struct ScanSummary {
    pub attempted: usize,
    pub succeeded: usize,
    pub failed: usize,
    pub loss_centipercent: u32,
    pub min_us: u64,
    pub max_us: u64,
    pub avg_us: u64,
}

/// Folds a stream of per-attempt latencies into a `ScanSummary`.
///
/// One aggregator serves every protocol alike; what differs between
/// ICMP, TCP and UDP scans is only the label a caller prints beside it.
pub struct StatisticsAggregator {
    latencies: Vec<u64>,
}

impl StatisticsAggregator {
    /// The latencies recorded so far, one per attempt, failures as 0.
    pub closed spec fn latencies(&self) -> Seq<u64> {
        self.latencies@
    }

    pub fn new() -> (r: StatisticsAggregator)
        ensures
            r.latencies() =~= Seq::<u64>::empty(),
    {
        StatisticsAggregator { latencies: Vec::new() }
    }

    /// Record one attempt: its latency in microseconds, or 0 for a failure.
    pub fn record(&mut self, latency_us: u64)
        ensures
            final(self).latencies() =~= old(self).latencies().push(latency_us),
    {
        self.latencies.push(latency_us);
    }

    /// Record a failed attempt (the 0 sentinel).
    pub fn record_failure(&mut self)
        ensures
            final(self).latencies() =~= old(self).latencies().push(0),
    {
        self.latencies.push(0);
    }

    /// Number of attempts recorded so far.
    pub fn attempted(&self) -> (n: usize)
        ensures
            n == self.latencies().len(),
    {
        self.latencies.len()
    }

    /// Compute the loss rate and the latency extremes and average.
    ///
    /// With no attempts the loss is 0% and with no successes the three
    /// latency figures are 0; no division by zero can occur.
    pub fn summary(&self) -> (r: ScanSummary)
        ensures
            r.attempted == self.latencies().len(),
            r.succeeded == success_count(self.latencies()),
            r.failed == r.attempted - r.succeeded,
            r.attempted > 0 ==> r.loss_centipercent == (r.failed * 10000) as int / (
            r.attempted as int),
            r.attempted == 0 ==> r.loss_centipercent == 0,
            r.succeeded > 0 ==> r.min_us == success_min(self.latencies()) && r.max_us
                == success_max(self.latencies()) && r.avg_us == success_sum(self.latencies()) / (
            r.succeeded as int),
            r.succeeded == 0 ==> r.min_us == 0 && r.max_us == 0 && r.avg_us == 0,
    {
        let attempted = self.latencies.len();
        let mut succeeded: usize = 0;
        let mut sum: u128 = 0;
        let mut min_us: u64 = 0;
        let mut max_us: u64 = 0;
        let mut i: usize = 0;

        proof {
            lemma_success_count_le_len(self.latencies());
        }

        while i < self.latencies.len()
            invariant
                i <= self.latencies().len(),
                succeeded == success_count(self.latencies().take(i as int)),
                succeeded <= i,
                sum == success_sum(self.latencies().take(i as int)),
                sum <= succeeded * (u64::MAX as int),
                succeeded > 0 ==> min_us == success_min(self.latencies().take(i as int)),
                succeeded > 0 ==> max_us == success_max(self.latencies().take(i as int)),
                succeeded == 0 ==> min_us == 0 && max_us == 0,
            decreases self.latencies().len() - i,
        {
            let t = self.latencies[i];
            proof {
                assert(self.latencies().take(i + 1).drop_last() =~= self.latencies().take(i as int));
                assert(self.latencies().take(i + 1).last() == t);
                lemma_success_count_le_len(self.latencies().take(i as int));
                if t > 0 {
                    assert((succeeded + 1) * (u64::MAX as int) == succeeded * (u64::MAX as int)
                        + u64::MAX) by (nonlinear_arith);
                }
            }
            if t > 0 {
                if succeeded == 0 || t < min_us {
                    min_us = t;
                }
                if succeeded == 0 || t > max_us {
                    max_us = t;
                }
                succeeded = succeeded + 1;
                sum = sum + t as u128;
            }
            i = i + 1;
        }
        proof {
            assert(self.latencies().take(self.latencies().len() as int) =~= self.latencies());
        }

        let failed = attempted - succeeded;
        let loss_centipercent: u32 = if attempted > 0 {
            proof {
                vstd::arithmetic::mul::lemma_mul_inequality(
                    failed as int,
                    attempted as int,
                    10000,
                );
                vstd::arithmetic::div_mod::lemma_div_is_ordered(
                    (failed * 10000) as int,
                    (attempted * 10000) as int,
                    attempted as int,
                );
                vstd::arithmetic::div_mod::lemma_div_multiples_vanish(
                    10000,
                    attempted as int,
                );
            }
            (((failed as u128) * 10000) / (attempted as u128)) as u32
        } else {
            0
        };

        let avg_us: u64 = if succeeded > 0 {
            proof {
                vstd::arithmetic::div_mod::lemma_div_is_ordered(
                    sum as int,
                    succeeded * (u64::MAX as int),
                    succeeded as int,
                );
                vstd::arithmetic::div_mod::lemma_div_multiples_vanish(
                    u64::MAX as int,
                    succeeded as int,
                );
            }
            (sum / (succeeded as u128)) as u64
        } else {
            0
        };

        ScanSummary {
            attempted,
            succeeded,
            failed,
            loss_centipercent,
            min_us,
            max_us,
            avg_us,
        }
    }
}

} // verus!
