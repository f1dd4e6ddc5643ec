//! Sequence-level statistics: what a summary folded over a whole batch of
//! outcomes contains, and why the order of folding does not matter.

use vstd::prelude::*;
use crate::types::{SpeedTestResult, TestSummary};

verus! {

/// Every outcome in the sequence satisfies its structural invariant.
pub open spec fn all_wf(rs: Seq<SpeedTestResult>) -> bool {
    forall|i: int| 0 <= i < rs.len() ==> (#[trigger] rs[i]).wf()
}

/// The summary obtained by folding the whole sequence, in order, into an
/// empty summary.
pub open spec fn summarize_spec(rs: Seq<SpeedTestResult>) -> TestSummary
    decreases rs.len(),
{
    if rs.len() == 0 {
        TestSummary::spec_empty()
    } else {
        summarize_spec(rs.drop_last()).spec_add(rs.last())
    }
}

/// Sum of a per-outcome weight over the sequence.
pub open spec fn weighted_sum(rs: Seq<SpeedTestResult>, f: spec_fn(SpeedTestResult) -> int) -> int
    decreases rs.len(),
{
    if rs.len() == 0 {
        0
    } else {
        weighted_sum(rs.drop_last(), f) + f(rs.last())
    }
}

/// Weight 1 for a success.
pub open spec fn success_weight(r: SpeedTestResult) -> int {
    if r.success {
        1
    } else {
        0
    }
}

/// Weight 1 for a timeout.
pub open spec fn timeout_weight(r: SpeedTestResult) -> int {
    if r.spec_is_timeout() {
        1
    } else {
        0
    }
}

/// Weight 1 for a failure that is not a timeout.
pub open spec fn failed_weight(r: SpeedTestResult) -> int {
    if !r.success && !r.spec_is_timeout() {
        1
    } else {
        0
    }
}

/// The latency contributed by a success, zero otherwise.
pub open spec fn latency_weight(r: SpeedTestResult) -> int {
    r.spec_latency() as int
}

/// Number of successful outcomes in the sequence.
pub open spec fn count_success(rs: Seq<SpeedTestResult>) -> int {
    weighted_sum(rs, |r: SpeedTestResult| success_weight(r))
}

/// Number of timed-out outcomes in the sequence.
pub open spec fn count_timeout(rs: Seq<SpeedTestResult>) -> int {
    weighted_sum(rs, |r: SpeedTestResult| timeout_weight(r))
}

/// Number of failed (not timed-out) outcomes in the sequence.
pub open spec fn count_failed(rs: Seq<SpeedTestResult>) -> int {
    weighted_sum(rs, |r: SpeedTestResult| failed_weight(r))
}

/// Sum of the successful latencies in the sequence.
pub open spec fn latency_total(rs: Seq<SpeedTestResult>) -> int {
    weighted_sum(rs, |r: SpeedTestResult| latency_weight(r))
}

/// A weight that is nonnegative on every element makes the weighted sum
/// grow along prefixes.
pub proof fn lemma_weighted_sum_nonneg(rs: Seq<SpeedTestResult>, f: spec_fn(SpeedTestResult) -> int)
    requires
        forall|r: SpeedTestResult| #[trigger] f(r) >= 0,
    ensures
        weighted_sum(rs, f) >= 0,
    decreases rs.len(),
{
    if rs.len() > 0 {
        lemma_weighted_sum_nonneg(rs.drop_last(), f);
    }
}

/// A nonnegative weighted sum over a prefix never exceeds the sum over the
/// whole sequence.
pub proof fn lemma_weighted_sum_take_le(
    rs: Seq<SpeedTestResult>,
    f: spec_fn(SpeedTestResult) -> int,
    k: int,
)
    requires
        forall|r: SpeedTestResult| #[trigger] f(r) >= 0,
        0 <= k <= rs.len(),
    ensures
        weighted_sum(rs.take(k), f) <= weighted_sum(rs, f),
    decreases rs.len(),
{
    if k == rs.len() {
        assert(rs.take(k) =~= rs);
    } else {
        assert(rs.drop_last().take(k) =~= rs.take(k));
        lemma_weighted_sum_take_le(rs.drop_last(), f, k);
        assert(f(rs.last()) >= 0);
    }
}

/// Removing one element removes exactly its weight from the sum.
pub proof fn lemma_weighted_sum_remove(
    rs: Seq<SpeedTestResult>,
    f: spec_fn(SpeedTestResult) -> int,
    j: int,
)
    requires
        0 <= j < rs.len(),
    ensures
        weighted_sum(rs, f) == weighted_sum(rs.remove(j), f) + f(rs[j]),
    decreases rs.len(),
{
    if j == rs.len() - 1 {
        assert(rs.remove(j) =~= rs.drop_last());
    } else {
        assert(rs.remove(j).last() == rs.last());
        assert(rs.remove(j).drop_last() =~= rs.drop_last().remove(j));
        lemma_weighted_sum_remove(rs.drop_last(), f, j);
    }
}

/// Two sequences holding the same outcomes (as a multiset) have the same
/// weighted sum: folding order is irrelevant to any additive statistic.
pub proof fn lemma_weighted_sum_permutation(
    rs1: Seq<SpeedTestResult>,
    rs2: Seq<SpeedTestResult>,
    f: spec_fn(SpeedTestResult) -> int,
)
    requires
        rs1.to_multiset() == rs2.to_multiset(),
    ensures
        weighted_sum(rs1, f) == weighted_sum(rs2, f),
    decreases rs1.len(),
{
    broadcast use vstd::seq_lib::group_to_multiset_ensures;

    assert(rs1.to_multiset().len() == rs1.len());
    assert(rs2.to_multiset().len() == rs2.len());
    if rs1.len() == 0 {
        assert(rs2.len() == 0);
    } else {
        let x = rs1.last();
        assert(rs1.contains(x));
        assert(rs2.to_multiset().count(x) > 0);
        assert(rs2.contains(x));
        let j = choose|j: int| 0 <= j < rs2.len() && rs2[j] == x;
        assert(rs1.drop_last() =~= rs1.remove(rs1.len() - 1));
        assert(rs1.drop_last().to_multiset() =~= rs1.to_multiset().remove(x));
        assert(rs2.remove(j).to_multiset() =~= rs2.to_multiset().remove(x));
        lemma_weighted_sum_permutation(rs1.drop_last(), rs2.remove(j), f);
        lemma_weighted_sum_remove(rs2, f, j);
    }
}

/// What the fold computes, stated over the whole sequence: the counters are
/// the class counts, the latency sum is the sum of successful latencies, and
/// the summary is well formed.
pub proof fn lemma_summarize_props(rs: Seq<SpeedTestResult>)
    requires
        all_wf(rs),
        rs.len() <= usize::MAX,
        latency_total(rs) <= u64::MAX,
    ensures
        summarize_spec(rs).total == rs.len(),
        summarize_spec(rs).success == count_success(rs),
        summarize_spec(rs).failed == count_failed(rs),
        summarize_spec(rs).timeout == count_timeout(rs),
        summarize_spec(rs).latency_sum == latency_total(rs),
        summarize_spec(rs).wf(),
    decreases rs.len(),
{
    let latf = |r: SpeedTestResult| latency_weight(r);
    lemma_weighted_sum_nonneg(rs, latf);
    if rs.len() > 0 {
        let prefix = rs.drop_last();
        let last = rs.last();
        assert(all_wf(prefix)) by {
            assert(forall|i: int| 0 <= i < prefix.len() ==> prefix[i] == rs[i]);
        }
        assert(latency_total(prefix) + latf(last) == latency_total(rs));
        assert(latf(last) >= 0);
        lemma_weighted_sum_nonneg(prefix, latf);
        lemma_summarize_props(prefix);
        assert(last.wf());
    }
}

/// The three outcome classes always partition the total, after every fold
/// step of any batch.
pub proof fn lemma_classes_partition_total(rs: Seq<SpeedTestResult>, k: int)
    requires
        all_wf(rs),
        rs.len() <= usize::MAX,
        latency_total(rs) <= u64::MAX,
        0 <= k <= rs.len(),
    ensures
        summarize_spec(rs.take(k)).total == summarize_spec(rs.take(k)).success + summarize_spec(
            rs.take(k),
        ).failed + summarize_spec(rs.take(k)).timeout,
{
    let latf = |r: SpeedTestResult| latency_weight(r);
    lemma_weighted_sum_take_le(rs, latf, k);
    lemma_weighted_sum_nonneg(rs.take(k), latf);
    assert(all_wf(rs.take(k))) by {
        assert(forall|i: int| 0 <= i < rs.take(k).len() ==> rs.take(k)[i] == rs[i]);
    }
    lemma_summarize_props(rs.take(k));
}

/// The folded mean is the arithmetic mean of all successful latencies,
/// recomputed from scratch.
pub proof fn lemma_mean_is_arithmetic_mean(rs: Seq<SpeedTestResult>)
    requires
        all_wf(rs),
        rs.len() <= usize::MAX,
        latency_total(rs) <= u64::MAX,
    ensures
        count_success(rs) == 0 ==> summarize_spec(rs).avg_latency is None,
        count_success(rs) > 0 ==> summarize_spec(rs).avg_latency == Some(
            (latency_total(rs) / count_success(rs)) as u64,
        ),
{
    lemma_summarize_props(rs);
    let s = summarize_spec(rs);
    if count_success(rs) > 0 {
        assert(s.avg_latency == Some((s.latency_sum / (s.success as u64)) as u64));
        lemma_weighted_sum_nonneg(rs, |r: SpeedTestResult| latency_weight(r));
    }
}

/// Folding the same outcomes in any order yields the same counters, the
/// same latency sum, and the same mean.
pub proof fn lemma_fold_order_irrelevant(rs1: Seq<SpeedTestResult>, rs2: Seq<SpeedTestResult>)
    requires
        all_wf(rs1),
        rs1.len() <= usize::MAX,
        latency_total(rs1) <= u64::MAX,
        rs1.to_multiset() == rs2.to_multiset(),
    ensures
        summarize_spec(rs2).total == summarize_spec(rs1).total,
        summarize_spec(rs2).success == summarize_spec(rs1).success,
        summarize_spec(rs2).failed == summarize_spec(rs1).failed,
        summarize_spec(rs2).timeout == summarize_spec(rs1).timeout,
        summarize_spec(rs2).latency_sum == summarize_spec(rs1).latency_sum,
        summarize_spec(rs2).avg_latency == summarize_spec(rs1).avg_latency,
{
    broadcast use vstd::seq_lib::group_to_multiset_ensures;

    assert(rs1.to_multiset().len() == rs1.len());
    assert(rs2.to_multiset().len() == rs2.len());
    assert(rs2.len() == rs1.len());
    assert(all_wf(rs2)) by {
        assert forall|i: int| 0 <= i < rs2.len() implies (#[trigger] rs2[i]).wf() by {
            assert(rs2.contains(rs2[i]));
            assert(rs2.to_multiset().count(rs2[i]) > 0);
            assert(rs1.contains(rs2[i]));
            let j = choose|j: int| 0 <= j < rs1.len() && rs1[j] == rs2[i];
            assert(rs1[j].wf());
        }
    }
    lemma_weighted_sum_permutation(rs1, rs2, |r: SpeedTestResult| success_weight(r));
    lemma_weighted_sum_permutation(rs1, rs2, |r: SpeedTestResult| timeout_weight(r));
    lemma_weighted_sum_permutation(rs1, rs2, |r: SpeedTestResult| failed_weight(r));
    lemma_weighted_sum_permutation(rs1, rs2, |r: SpeedTestResult| latency_weight(r));
    lemma_summarize_props(rs1);
    lemma_summarize_props(rs2);
}


/// A sequence with no successful outcome counts zero successes, and one
/// counting zero successes has none.
pub proof fn lemma_count_success_zero(rs: Seq<SpeedTestResult>)
    requires
        count_success(rs) == 0,
    ensures
        forall|i: int| 0 <= i < rs.len() ==> !(#[trigger] rs[i]).success,
    decreases rs.len(),
{
    if rs.len() > 0 {
        let f = |r: SpeedTestResult| success_weight(r);
        lemma_weighted_sum_nonneg(rs.drop_last(), f);
        assert(success_weight(rs.last()) == 0);
        lemma_count_success_zero(rs.drop_last());
        assert forall|i: int| 0 <= i < rs.len() implies !(#[trigger] rs[i]).success by {
            if i < rs.len() - 1 {
                assert(rs.drop_last()[i] == rs[i]);
            }
        }
    }
}

/// The folded smallest and largest latencies are the actual extremes of
/// the successful latencies: both are attained by some success, and every
/// successful latency lies between them.
pub proof fn lemma_min_max_are_extremes(rs: Seq<SpeedTestResult>)
    requires
        all_wf(rs),
        rs.len() <= usize::MAX,
        latency_total(rs) <= u64::MAX,
        count_success(rs) > 0,
    ensures
        summarize_spec(rs).min_latency is Some,
        summarize_spec(rs).max_latency is Some,
        exists|i: int|
            0 <= i < rs.len() && (#[trigger] rs[i]).success && rs[i].latency_ms == summarize_spec(
                rs,
            ).min_latency,
        exists|i: int|
            0 <= i < rs.len() && (#[trigger] rs[i]).success && rs[i].latency_ms == summarize_spec(
                rs,
            ).max_latency,
        forall|i: int|
            0 <= i < rs.len() && (#[trigger] rs[i]).success ==> summarize_spec(
                rs,
            ).min_latency->Some_0 <= rs[i].latency_ms->Some_0 <= summarize_spec(
                rs,
            ).max_latency->Some_0,
    decreases rs.len(),
{
    lemma_summarize_props(rs);
    let prefix = rs.drop_last();
    let last = rs.last();
    let s = summarize_spec(rs);
    assert(all_wf(prefix)) by {
        assert(forall|i: int| 0 <= i < prefix.len() ==> prefix[i] == rs[i]);
    }
    let latf = |r: SpeedTestResult| latency_weight(r);
    lemma_weighted_sum_nonneg(prefix, latf);
    assert(latf(last) >= 0);
    lemma_summarize_props(prefix);
    let sp = summarize_spec(prefix);
    if count_success(prefix) == 0 {
        // the last outcome is the only success
        lemma_count_success_zero(prefix);
        assert(last.success);
        assert(s.min_latency == Some(last.latency_ms->Some_0));
        assert(s.max_latency == Some(last.latency_ms->Some_0));
        assert(rs[rs.len() - 1].success && rs[rs.len() - 1].latency_ms == s.min_latency);
        assert forall|i: int|
            0 <= i < rs.len() && (#[trigger] rs[i]).success implies s.min_latency->Some_0
            <= rs[i].latency_ms->Some_0 <= s.max_latency->Some_0 by {
            if i < rs.len() - 1 {
                assert(prefix[i] == rs[i]);
                assert(!rs[i].success);
            }
        }
    } else {
        lemma_min_max_are_extremes(prefix);
        let im = choose|im: int|
            0 <= im < prefix.len() && (#[trigger] prefix[im]).success && prefix[im].latency_ms
                == sp.min_latency;
        let ix = choose|ix: int|
            0 <= ix < prefix.len() && (#[trigger] prefix[ix]).success && prefix[ix].latency_ms
                == sp.max_latency;
        assert(prefix[im] == rs[im] && prefix[ix] == rs[ix]);
        if last.success {
            let lat = last.latency_ms->Some_0;
            if lat < sp.min_latency->Some_0 {
                assert(rs[rs.len() - 1].success && rs[rs.len() - 1].latency_ms == s.min_latency);
            } else {
                assert(rs[im].success && rs[im].latency_ms == s.min_latency);
            }
            if lat > sp.max_latency->Some_0 {
                assert(rs[rs.len() - 1].success && rs[rs.len() - 1].latency_ms == s.max_latency);
            } else {
                assert(rs[ix].success && rs[ix].latency_ms == s.max_latency);
            }
        } else {
            assert(s.min_latency == sp.min_latency && s.max_latency == sp.max_latency);
            assert(rs[im].success && rs[im].latency_ms == s.min_latency);
            assert(rs[ix].success && rs[ix].latency_ms == s.max_latency);
        }
        assert forall|i: int|
            0 <= i < rs.len() && (#[trigger] rs[i]).success implies s.min_latency->Some_0
            <= rs[i].latency_ms->Some_0 <= s.max_latency->Some_0 by {
            if i < rs.len() - 1 {
                assert(prefix[i] == rs[i]);
                assert(sp.min_latency->Some_0 <= rs[i].latency_ms->Some_0
                    <= sp.max_latency->Some_0);
            }
        }
    }
}

} // verus!
