//! Scan orchestration bookkeeping: cutting a host list into bounded
//! batches, assigning wrapping sequence numbers, and folding the
//! per-host outcomes of a round into statistics and a responsive set.
//!
//! The sockets and worker threads that carry the probes out live with
//! the caller; everything here is the arithmetic the scan relies on.

use crate::stats::StatisticsAggregator;
use vstd::prelude::*;

verus! {

/// Why a probe failed, echoing where in its life it went wrong.
#[derive(Clone, Copy, Debug, PartialEq, Eq, Structural)]
pub enum ErrorKind {
    /// The destination text could not be parsed.
    AddressParse,
    /// The socket could not be created or configured.
    Socket,
    /// The request could not be sent.
    Send,
    /// No reply arrived within the timeout.
    ReceiveTimeout,
    /// The reply was too short to carry a header.
    MalformedReply,
    /// The reply did not answer the request.
    ReplyMismatch,
    /// The platform cannot probe this way at all.
    UnsupportedPlatform,
    /// The host name resolved to nothing usable.
    Resolution,
    /// A collaborator the probe asked failed; never fatal to the scan.
    Dependency,
}

/// How one probe of one host ended.
#[derive(Clone, Copy, Debug, PartialEq, Eq, Structural)]
pub enum ProbeOutcome {
    /// A reply of `bytes` bytes after `rtt_us` microseconds.
    Success { bytes: usize, rtt_us: u64 },
    Failure { reason: ErrorKind },
}

/// One probe's verdict on one target address.
#[derive(Clone, Copy, Debug, PartialEq, Eq, Structural)]
pub struct ProbeResult {
    pub target: u32,
    pub outcome: ProbeOutcome,
}

impl ProbeResult {
    /// A success always carries a positive round-trip time, so that the
    /// zero latency sentinel is reserved for failures.
    pub open spec fn wf(self) -> bool {
        match self.outcome {
            ProbeOutcome::Success { bytes, rtt_us } => rtt_us > 0,
            ProbeOutcome::Failure { reason } => true,
        }
    }

    pub open spec fn is_success(self) -> bool {
        self.outcome is Success
    }
}

/// The latency a result contributes to the record: its round-trip time,
/// or the zero sentinel for a failure.
pub open spec fn recorded_latency(r: ProbeResult) -> u64 {
    match r.outcome {
        ProbeOutcome::Success { bytes, rtt_us } => rtt_us,
        ProbeOutcome::Failure { reason } => 0,
    }
}

/// The targets a round of results saw answer.
pub open spec fn success_targets(rs: Seq<ProbeResult>) -> Set<u32> {
    Set::new(|h: u32| exists|i: int| 0 <= i < rs.len() && rs[i].target == h && rs[i].is_success())
}

/// Strictly ascending, so free of duplicates.
pub open spec fn sorted_unique(s: Seq<u32>) -> bool {
    forall|i: int, j: int| 0 <= i < j < s.len() ==> s[i] < s[j]
}

/// An attempt count is used as given, except that zero means one.
pub fn ensure_attempts(attempts: usize) -> (r: usize)
    ensures
        r == if attempts == 0 {
            1usize
        } else {
            attempts
        },
{
    if attempts == 0 {
        1
    } else {
        attempts
    }
}

/// What a well-cut batch plan looks like: non-empty half-open index
/// ranges, adjacent, starting at 0 and ending at `total`, every one but
/// the last exactly `batch_size` long and the last no longer.
pub open spec fn batch_plan(r: Seq<(usize, usize)>, total: usize, batch_size: usize) -> bool {
    &&& total == 0 ==> r.len() == 0
    &&& total > 0 ==> r.len() >= 1 && r[0].0 == 0 && r[r.len() - 1].1 == total
    &&& forall|i: int| 0 <= i < r.len() - 1 ==> (#[trigger] r[i]).1 == r[i + 1].0
    &&& forall|i: int| 0 <= i < r.len() ==> (#[trigger] r[i]).0 < r[i].1
    &&& forall|i: int| 0 <= i < r.len() - 1 ==> (#[trigger] r[i]).1 - r[i].0 == batch_size
    &&& total > 0 ==> r[r.len() - 1].1 - r[r.len() - 1].0 <= batch_size
}

proof fn lemma_batch_ends_before_later_starts(r: Seq<(usize, usize)>, b1: int, b2: int)
    requires
        forall|i: int| 0 <= i < r.len() - 1 ==> (#[trigger] r[i]).1 == r[i + 1].0,
        forall|i: int| 0 <= i < r.len() ==> (#[trigger] r[i]).0 < r[i].1,
        0 <= b1 < b2 < r.len(),
    ensures
        r[b1].1 <= r[b2].0,
    decreases b2 - b1,
{
    if b2 > b1 + 1 {
        lemma_batch_ends_before_later_starts(r, b1, b2 - 1);
    }
}

proof fn lemma_batch_holding(r: Seq<(usize, usize)>, total: usize, j: int, b: int)
    requires
        forall|i: int| 0 <= i < r.len() - 1 ==> (#[trigger] r[i]).1 == r[i + 1].0,
        forall|i: int| 0 <= i < r.len() ==> (#[trigger] r[i]).0 < r[i].1,
        r.len() >= 1 && r[r.len() - 1].1 == total,
        0 <= j < total,
        0 <= b < r.len(),
        r[b].0 <= j,
    ensures
        exists|i: int| b <= i < r.len() && (#[trigger] r[i]).0 <= j < r[i].1,
    decreases r.len() - b,
{
    if j < r[b].1 {
        assert(r[b].0 <= j < r[b].1);
    } else {
        assert(b < r.len() - 1) by {
            if b == r.len() - 1 {
                assert(r[b].1 == total);
            }
        }
        lemma_batch_holding(r, total, j, b + 1);
    }
}

/// A planned round reaches every host exactly once, wherever the batch
/// boundaries fall: each index below `total` lies in one and only one
/// of the plan's ranges.
pub proof fn lemma_batches_cover_each_host_once(
    r: Seq<(usize, usize)>,
    total: usize,
    batch_size: usize,
    j: int,
)
    requires
        batch_plan(r, total, batch_size),
        0 <= j < total,
    ensures
        exists|b: int| 0 <= b < r.len() && (#[trigger] r[b]).0 <= j < r[b].1,
        forall|b1: int, b2: int|
            #![trigger r[b1], r[b2]]
            0 <= b1 < r.len() && 0 <= b2 < r.len() && r[b1].0 <= j < r[b1].1 && r[b2].0 <= j
                < r[b2].1 ==> b1 == b2,
{
    lemma_batch_holding(r, total, j, 0);
    assert forall|b1: int, b2: int|
        #![trigger r[b1], r[b2]]
        0 <= b1 < r.len() && 0 <= b2 < r.len() && r[b1].0 <= j < r[b1].1 && r[b2].0 <= j
            < r[b2].1 implies b1 == b2 by {
        if b1 < b2 {
            lemma_batch_ends_before_later_starts(r, b1, b2);
        }
        if b2 < b1 {
            lemma_batch_ends_before_later_starts(r, b2, b1);
        }
    }
}

/// Cut `total` items into consecutive half-open index ranges of
/// `batch_size`, the last one holding whatever remains.
///
/// The ranges partition `0..total` as `batch_plan` lays out, so a scan
/// that works batch by batch reaches every host exactly once per round.
pub fn plan_batches(total: usize, batch_size: usize) -> (r: Vec<(usize, usize)>)
    requires
        batch_size > 0,
    ensures
        batch_plan(r@, total, batch_size),
{
    let mut r: Vec<(usize, usize)> = Vec::new();
    let mut pos: usize = 0;
    while pos < total
        invariant
            batch_size > 0,
            pos <= total,
            pos == total ==> r@.len() > 0 || total == 0,
            r@.len() == 0 ==> pos == 0,
            r@.len() > 0 ==> r@[0].0 == 0 && r@[r@.len() - 1].1 == pos,
            forall|i: int| 0 <= i < r@.len() - 1 ==> (#[trigger] r@[i]).1 == r@[i + 1].0,
            forall|i: int| 0 <= i < r@.len() ==> (#[trigger] r@[i]).0 < r@[i].1,
            forall|i: int| 0 <= i < r@.len() - 1 ==> (#[trigger] r@[i]).1 - r@[i].0 == batch_size,
            r@.len() > 0 ==> r@[r@.len() - 1].1 - r@[r@.len() - 1].0 <= batch_size,
            r@.len() > 0 && pos < total ==> r@[r@.len() - 1].1 - r@[r@.len() - 1].0 == batch_size,
        decreases total - pos,
    {
        let end: usize = if total - pos < batch_size {
            total
        } else {
            pos + batch_size
        };
        r.push((pos, end));
        pos = end;
    }
    r
}

/// The sequence number `i` steps past `start`, wrapping at 16 bits.
pub open spec fn seq_at(start: u16, i: int) -> u16 {
    ((start + i) % 0x10000) as u16
}

/// Pair every host of a batch with its sequence number: consecutive
/// numbers from `start_seq` on, wrapping at 16 bits, so concurrent
/// replies can be told apart within a round.
pub fn assign_sequences(hosts: &Vec<u32>, start_seq: u16) -> (r: Vec<(u32, u16)>)
    ensures
        r@.len() == hosts@.len(),
        forall|i: int|
            0 <= i < r@.len() ==> (#[trigger] r@[i]).0 == hosts@[i] && r@[i].1 == seq_at(
                start_seq,
                i,
            ),
{
    let mut r: Vec<(u32, u16)> = Vec::new();
    let mut s: u16 = start_seq;
    let mut i: usize = 0;
    while i < hosts.len()
        invariant
            i <= hosts@.len(),
            r@.len() == i,
            s == seq_at(start_seq, i as int),
            forall|j: int|
                0 <= j < i ==> (#[trigger] r@[j]).0 == hosts@[j] && r@[j].1 == seq_at(
                    start_seq,
                    j,
                ),
        decreases hosts@.len() - i,
    {
        proof {
            vstd::arithmetic::div_mod::lemma_mod_bound(start_seq + i, 0x10000);
        }
        r.push((hosts[i], s));
        proof {
            vstd::arithmetic::div_mod::lemma_add_mod_noop(start_seq + i as int, 1, 0x10000);
            vstd::arithmetic::div_mod::lemma_small_mod(1nat, 0x10000nat);
        }
        if s == 0xffff {
            s = 0;
        } else {
            proof {
                vstd::arithmetic::div_mod::lemma_small_mod((s + 1) as nat, 0x10000nat);
            }
            s = s + 1;
        }
        i = i + 1;
    }
    r
}

/// Record `host` as responsive, keeping the list strictly ascending.
pub fn note_responsive(list: &mut Vec<u32>, host: u32)
    requires
        sorted_unique(old(list)@),
    ensures
        sorted_unique(final(list)@),
        final(list)@.to_set() =~= old(list)@.to_set().insert(host),
{
    let n = list.len();
    let mut k: usize = 0;
    while k < n && list[k] < host
        invariant
            k <= n,
            n == list@.len(),
            list@ == old(list)@,
            forall|j: int| 0 <= j < k ==> list@[j] < host,
        decreases n - k,
    {
        k = k + 1;
    }
    if k < n {
        let found = list[k];
        if found == host {
            proof {
                assert(list@[k as int] == host);
                assert(list@.contains(host));
                assert(list@.to_set() =~= old(list)@.to_set().insert(host));
            }
            return ;
        }
    }
    let ghost s = list@;
    list.insert(k, host);
    proof {
        s.insert_ensures(k as int, host);
        assert(sorted_unique(list@)) by {
            assert(forall|j: int| 0 <= j < k ==> list@[j] == s[j]);
            assert(forall|j: int| k <= j < s.len() ==> list@[j + 1] == s[j]);
            assert(list@[k as int] == host);
            assert(forall|j: int| k <= j < s.len() ==> s[j] > host);
        }
        assert(list@.to_set() =~= s.to_set().insert(host)) by {
            assert(forall|x: u32| #[trigger] s.to_set().contains(x) ==> list@.to_set().contains(x))
                by {
                assert(forall|j: int|
                    0 <= j < s.len() ==> s[j] == if j < k {
                        list@[j]
                    } else {
                        list@[j + 1]
                    });
            }
            assert(forall|x: u32| #[trigger]
                list@.to_set().contains(x) ==> x == host || s.to_set().contains(x)) by {
                assert(forall|j: int|
                    0 <= j < list@.len() && j != k ==> list@[j] == if j < k {
                        s[j]
                    } else {
                        s[j - 1]
                    });
            }
            assert(list@.to_set().contains(host)) by {
                assert(list@[k as int] == host);
            }
        }
    }
}

/// Fold one round of probe results into the running statistics and the
/// set of hosts seen responding: every result contributes its latency
/// (failures as the zero sentinel), and exactly the successful targets
/// join the responsive list.
pub fn fold_round(
    agg: &mut StatisticsAggregator,
    responsive: &mut Vec<u32>,
    results: &Vec<ProbeResult>,
)
    requires
        sorted_unique(old(responsive)@),
        forall|i: int| 0 <= i < results@.len() ==> (#[trigger] results@[i]).wf(),
    ensures
        final(agg).latencies() =~= old(agg).latencies() + results@.map_values(
            |r: ProbeResult| recorded_latency(r),
        ),
        sorted_unique(final(responsive)@),
        final(responsive)@.to_set() =~= old(responsive)@.to_set() + success_targets(results@),
{
    let mut i: usize = 0;
    while i < results.len()
        invariant
            i <= results@.len(),
            sorted_unique(old(responsive)@),
            forall|j: int| 0 <= j < results@.len() ==> (#[trigger] results@[j]).wf(),
            agg.latencies() =~= old(agg).latencies() + results@.take(i as int).map_values(
                |r: ProbeResult| recorded_latency(r),
            ),
            sorted_unique(responsive@),
            responsive@.to_set() =~= old(responsive)@.to_set() + success_targets(
                results@.take(i as int),
            ),
        decreases results@.len() - i,
    {
        let res = results[i];
        match res.outcome {
            ProbeOutcome::Success { bytes, rtt_us } => {
                agg.record(rtt_us);
                note_responsive(responsive, res.target);
            },
            ProbeOutcome::Failure { reason } => {
                agg.record_failure();
            },
        }
        proof {
            assert(results@.take(i + 1).map_values(|r: ProbeResult| recorded_latency(r))
                =~= results@.take(i as int).map_values(|r: ProbeResult| recorded_latency(r)).push(
                recorded_latency(results@[i as int]),
            ));
            assert(success_targets(results@.take(i + 1)) =~= if results@[i as int].is_success() {
                success_targets(results@.take(i as int)).insert(results@[i as int].target)
            } else {
                success_targets(results@.take(i as int))
            }) by {
                let prev = results@.take(i as int);
                let cur = results@.take(i + 1);
                assert(forall|j: int| 0 <= j < i ==> prev[j] == #[trigger] cur[j]);
                assert(cur[i as int] == results@[i as int]);
                assert forall|h: u32| #[trigger]
                    success_targets(prev).contains(h) implies success_targets(cur).contains(
                    h,
                ) by {
                    let j = choose|j: int|
                        0 <= j < prev.len() && prev[j].target == h && prev[j].is_success();
                    assert(cur[j].target == h && cur[j].is_success());
                }
            }
        }
        i = i + 1;
    }
    proof {
        assert(results@.take(results@.len() as int) =~= results@);
    }
}

} // verus!
