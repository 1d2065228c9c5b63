use vstd::prelude::*;
use vstd::seq_lib::to_multiset_len;
use vstd::arithmetic::div_mod::{lemma_fundamental_div_mod, lemma_fundamental_div_mod_converse};
use crate::outcome::{CheckOutcome, CheckResult};

verus! {

/// Latency statistics over the successful checks of a run.
#[derive(Clone, Copy, Debug, PartialEq, Eq, Structural)]
pub struct SummaryStats {
    /// How many checks succeeded.
    pub count: u64,
    pub min_ms: u64,
    pub max_ms: u64,
    /// Sum of the successful elapsed times.
    pub total_ms: u128,
}

/// The elapsed times of the successful results, in their order.
pub open spec fn success_times(rs: Seq<CheckResult>) -> Seq<u64>
    decreases rs.len(),
{
    if rs.len() == 0 {
        Seq::empty()
    } else {
        let p = success_times(rs.drop_last());
        if rs.last().outcome is Success {
            p.push(rs.last().elapsed_ms)
        } else {
            p
        }
    }
}

pub open spec fn sum_of(t: Seq<u64>) -> nat
    decreases t.len(),
{
    if t.len() == 0 {
        0
    } else {
        sum_of(t.drop_last()) + t.last() as nat
    }
}

/// The smallest entry of `t` is `m`.
pub open spec fn is_min_of(m: u64, t: Seq<u64>) -> bool {
    &&& t.contains(m)
    &&& forall|i: int| 0 <= i < t.len() ==> m <= #[trigger] t[i]
}

/// The largest entry of `t` is `m`.
pub open spec fn is_max_of(m: u64, t: Seq<u64>) -> bool {
    &&& t.contains(m)
    &&& forall|i: int| 0 <= i < t.len() ==> #[trigger] t[i] <= m
}

/// The statistics of the successful elapsed times `t`: `None` when there are none.
pub open spec fn stats_of(t: Seq<u64>, s: Option<SummaryStats>) -> bool {
    if t.len() == 0 {
        s is None
    } else {
        &&& s is Some
        &&& s->Some_0.count == t.len()
        &&& is_min_of(s->Some_0.min_ms, t)
        &&& is_max_of(s->Some_0.max_ms, t)
        &&& s->Some_0.total_ms == sum_of(t)
    }
}

proof fn lemma_success_len(rs: Seq<CheckResult>)
    ensures
        success_times(rs).len() <= rs.len(),
    decreases rs.len(),
{
    if rs.len() > 0 {
        lemma_success_len(rs.drop_last());
    }
}

proof fn lemma_sum_bound(t: Seq<u64>)
    ensures
        sum_of(t) <= t.len() * 0xffff_ffff_ffff_ffffnat,
    decreases t.len(),
{
    if t.len() > 0 {
        lemma_sum_bound(t.drop_last());
        assert((t.len() - 1) * 0xffff_ffff_ffff_ffffnat + 0xffff_ffff_ffff_ffffnat == t.len()
            * 0xffff_ffff_ffff_ffffnat) by (nonlinear_arith);
    }
}

/// Computes min, max, count and total over the successful results only, or
/// `None` when no check succeeded: the explicit empty state, never a zero
/// average. Min and max are taken by a linear scan, so the result does not
/// depend on the order of `results`.
pub fn summarize(results: &Vec<CheckResult>) -> (r: Option<SummaryStats>)
    ensures
        stats_of(success_times(results@), r),
        r is Some ==> r->Some_0.wf(),
{
    let mut count: u64 = 0;
    let mut min_ms: u64 = 0;
    let mut max_ms: u64 = 0;
    let mut total_ms: u128 = 0;
    let mut i: usize = 0;
    while i < results.len()
        invariant
            i <= results.len(),
            ({
                let t = success_times(results@.take(i as int));
                &&& count == t.len()
                &&& total_ms == sum_of(t)
                &&& t.len() > 0 ==> is_min_of(min_ms, t) && is_max_of(max_ms, t)
            }),
        decreases results.len() - i,
    {
        let ghost t0 = success_times(results@.take(i as int));
        assert(results@.take(i as int + 1).drop_last() =~= results@.take(i as int));
        let r = &results[i];
        assert(results@.take(i as int + 1).last() == results@[i as int]);
        if let CheckOutcome::Success(_) = r.outcome {
            let e = r.elapsed_ms;
            let ghost t1 = t0.push(e);
            proof {
                lemma_sum_bound(t1);
                lemma_success_len(results@.take(i as int));
                assert(t1.len() <= results@.len());
                assert(t1.len() * 0xffff_ffff_ffff_ffffnat <= 0xffff_ffff_ffff_ffffnat
                    * 0xffff_ffff_ffff_ffffnat) by (nonlinear_arith)
                    requires
                        t1.len() <= 0xffff_ffff_ffff_ffffnat,
                ;
                assert(t1.last() == e);
                assert(t1.drop_last() =~= t0);
                assert(sum_of(t1) == total_ms + e);
            }
            if count == 0 || e < min_ms {
                min_ms = e;
            }
            if count == 0 || e > max_ms {
                max_ms = e;
            }
            count = count + 1;
            total_ms = total_ms + e as u128;
            proof {
                assert(t1.drop_last() =~= t0);
                assert(t1[t1.len() - 1] == e);
                if t0.len() > 0 {
                    assert(t1.contains(min_ms)) by {
                        if min_ms != e {
                            let j = choose|j: int| 0 <= j < t0.len() && t0[j] == min_ms;
                            assert(t1[j] == min_ms);
                        }
                    }
                    assert(t1.contains(max_ms)) by {
                        if max_ms != e {
                            let j = choose|j: int| 0 <= j < t0.len() && t0[j] == max_ms;
                            assert(t1[j] == max_ms);
                        }
                    }
                    assert forall|j: int| 0 <= j < t1.len() implies min_ms <= #[trigger] t1[j]
                        && t1[j] <= max_ms by {
                        if j < t0.len() {
                            assert(t1[j] == t0[j]);
                        }
                    }
                } else {
                    assert(t1.contains(e));
                }
            }
        }
        i = i + 1;
    }
    assert(results@.take(results.len() as int) =~= results@);
    if count == 0 {
        None
    } else {
        let r = Some(SummaryStats { count, min_ms, max_ms, total_ms });
        proof {
            lemma_summary_wf(success_times(results@), r);
        }
        r
    }
}

impl SummaryStats {
    /// The figures that `summarize` can produce: at least one success, and a
    /// total that lies between `count` times the minimum and `count` times
    /// the maximum.
    pub open spec fn wf(self) -> bool {
        &&& self.count > 0
        &&& self.min_ms <= self.max_ms
        &&& self.count * self.min_ms <= self.total_ms <= self.count * self.max_ms
    }

    /// The mean elapsed time in hundredths of a millisecond, rounded half up:
    /// the average shown with two decimals.
    pub fn mean_hundredths(&self) -> (r: u128)
        requires
            self.wf(),
        ensures
            r == (200 * self.total_ms + self.count) / (2 * self.count),
    {
        let c = self.count as u128;
        let q = self.total_ms / c;
        let rem = self.total_ms % c;
        proof {
            lemma_fundamental_div_mod(self.total_ms as int, c as int);
            assert(q <= self.max_ms) by (nonlinear_arith)
                requires
                    self.total_ms <= c * self.max_ms,
                    q == self.total_ms / c,
                    c > 0,
            ;
            assert(rem < c);
        }
        let frac = (200 * rem + c) / (2 * c);
        let r = 100 * q + frac;
        proof {
            let x = 200 * self.total_ms + c;
            let y = 200 * rem + c;
            lemma_fundamental_div_mod(y as int, 2 * c as int);
            assert(0 <= y % (2 * c) < 2 * c);
            assert(x == (100 * q + y / (2 * c)) * (2 * c) + y % (2 * c)) by (nonlinear_arith)
                requires
                    self.total_ms == c * q + rem,
                    x == 200 * self.total_ms + c,
                    y == 200 * rem + c,
                    y == 2 * c * (y / (2 * c)) + y % (2 * c),
            ;
            lemma_fundamental_div_mod_converse(
                x as int,
                2 * c as int,
                (100 * q + y / (2 * c)) as int,
                (y % (2 * c)) as int,
            );
        }
        r
    }
}

proof fn lemma_summary_wf(t: Seq<u64>, s: Option<SummaryStats>)
    requires
        stats_of(t, s),
        s is Some,
    ensures
        s->Some_0.wf(),
{
    lemma_sum_between(t, s->Some_0.min_ms, s->Some_0.max_ms);
}

proof fn lemma_sum_between(t: Seq<u64>, lo: u64, hi: u64)
    requires
        forall|i: int| 0 <= i < t.len() ==> lo <= #[trigger] t[i] <= hi,
    ensures
        t.len() * lo <= sum_of(t) <= t.len() * hi,
    decreases t.len(),
{
    if t.len() > 0 {
        let p = t.drop_last();
        assert forall|i: int| 0 <= i < p.len() implies lo <= #[trigger] p[i] <= hi by {
            assert(p[i] == t[i]);
        }
        lemma_sum_between(p, lo, hi);
        assert(t.last() == t[t.len() - 1]);
        assert((p.len() + 1) * lo == p.len() * lo + lo) by (nonlinear_arith);
        assert((p.len() + 1) * hi == p.len() * hi + hi) by (nonlinear_arith);
    }
}

proof fn lemma_sum_remove(t: Seq<u64>, j: int)
    requires
        0 <= j < t.len(),
    ensures
        sum_of(t) == sum_of(t.remove(j)) + t[j],
    decreases t.len(),
{
    if j == t.len() - 1 {
        assert(t.remove(j) =~= t.drop_last());
    } else {
        let r = t.remove(j);
        assert(r.drop_last() =~= t.drop_last().remove(j));
        assert(r.last() == t.last());
        lemma_sum_remove(t.drop_last(), j);
    }
}

proof fn lemma_sum_same_multiset(a: Seq<u64>, b: Seq<u64>)
    requires
        a.to_multiset() == b.to_multiset(),
    ensures
        sum_of(a) == sum_of(b),
    decreases a.len(),
{
    broadcast use vstd::seq_lib::group_to_multiset_ensures;

    if a.len() == 0 {
        to_multiset_len(a);
        to_multiset_len(b);
        assert(sum_of(b) == 0);
    } else {
        let x = a.last();
        let p = a.drop_last();
        assert(a =~= p.push(x));
        assert(b.to_multiset().count(x) > 0);
        assert(b.contains(x));
        let j = choose|j: int| 0 <= j < b.len() && b[j] == x;
        lemma_sum_remove(b, j);
        assert(b.remove(j).to_multiset() =~= p.to_multiset());
        lemma_sum_same_multiset(p, b.remove(j));
        assert(sum_of(a) == sum_of(p) + x);
    }
}

proof fn lemma_stats_same_multiset(a: Seq<u64>, b: Seq<u64>, s: Option<SummaryStats>)
    requires
        a.to_multiset() == b.to_multiset(),
        stats_of(a, s),
    ensures
        stats_of(b, s),
{
    broadcast use vstd::seq_lib::group_to_multiset_ensures;

    to_multiset_len(a);
    to_multiset_len(b);
    lemma_sum_same_multiset(a, b);
    if a.len() > 0 {
        let m = s->Some_0;
        assert(a.to_multiset().count(m.min_ms) > 0);
        assert(a.to_multiset().count(m.max_ms) > 0);
        assert(b.to_multiset().count(m.min_ms) > 0);
        assert(b.to_multiset().count(m.max_ms) > 0);
        assert forall|i: int| 0 <= i < b.len() implies m.min_ms <= #[trigger] b[i] && b[i]
            <= m.max_ms by {
            assert(b.contains(b[i]));
            assert(b.to_multiset().count(b[i]) > 0);
            assert(a.contains(b[i]));
        }
    }
}

proof fn lemma_success_times_remove(rs: Seq<CheckResult>, j: int)
    requires
        0 <= j < rs.len(),
    ensures
        success_times(rs).to_multiset() == if rs[j].outcome is Success {
            success_times(rs.remove(j)).to_multiset().insert(rs[j].elapsed_ms)
        } else {
            success_times(rs.remove(j)).to_multiset()
        },
    decreases rs.len(),
{
    broadcast use vstd::seq_lib::group_to_multiset_ensures;

    let r = rs.remove(j);
    if j == rs.len() - 1 {
        assert(r =~= rs.drop_last());
    } else {
        assert(r.drop_last() =~= rs.drop_last().remove(j));
        assert(r.last() == rs.last());
        lemma_success_times_remove(rs.drop_last(), j);
        assert(rs.drop_last()[j] == rs[j]);
        if rs.last().outcome is Success {
            assert(success_times(rs).to_multiset() =~= success_times(
                rs.drop_last(),
            ).to_multiset().insert(rs.last().elapsed_ms));
            assert(success_times(r).to_multiset() =~= success_times(r.drop_last()).to_multiset().insert(
                rs.last().elapsed_ms,
            ));
        }
        if rs[j].outcome is Success {
            assert(success_times(rs).to_multiset() =~= success_times(r).to_multiset().insert(
                rs[j].elapsed_ms,
            ));
        } else {
            assert(success_times(rs).to_multiset() =~= success_times(r).to_multiset());
        }
    }
}

proof fn lemma_success_times_same_multiset(a: Seq<CheckResult>, b: Seq<CheckResult>)
    requires
        a.to_multiset() == b.to_multiset(),
    ensures
        success_times(a).to_multiset() == success_times(b).to_multiset(),
    decreases a.len(),
{
    broadcast use vstd::seq_lib::group_to_multiset_ensures;

    if a.len() == 0 {
        to_multiset_len(a);
        to_multiset_len(b);
        assert(success_times(a) =~= success_times(b));
    } else {
        let x = a.last();
        let p = a.drop_last();
        assert(a =~= p.push(x));
        assert(b.to_multiset().count(x) > 0);
        assert(b.contains(x));
        let j = choose|j: int| 0 <= j < b.len() && b[j] == x;
        assert(b.remove(j).to_multiset() =~= p.to_multiset());
        lemma_success_times_same_multiset(p, b.remove(j));
        lemma_success_times_remove(b, j);
        if x.outcome is Success {
            assert(success_times(a).to_multiset() =~= success_times(p).to_multiset().insert(
                x.elapsed_ms,
            ));
        } else {
            assert(success_times(a) == success_times(p));
        }
    }
}

/// The summary does not depend on the order in which results arrived: two
/// result lists that hold the same results, each as often, have the same
/// summary.
pub proof fn lemma_summary_ignores_arrival_order(
    a: Seq<CheckResult>,
    b: Seq<CheckResult>,
    s: Option<SummaryStats>,
)
    requires
        a.to_multiset() == b.to_multiset(),
    ensures
        stats_of(success_times(a), s) <==> stats_of(success_times(b), s),
{
    lemma_success_times_same_multiset(a, b);
    lemma_summary_ignores_order(success_times(a), success_times(b), s);
}

/// The statistics depend only on which elapsed times succeeded, counted with
/// their multiplicity, not on the order in which results arrived: two runs
/// whose successful times agree as multisets have the same summary.
pub proof fn lemma_summary_ignores_order(a: Seq<u64>, b: Seq<u64>, s: Option<SummaryStats>)
    requires
        a.to_multiset() == b.to_multiset(),
    ensures
        stats_of(a, s) <==> stats_of(b, s),
{
    if stats_of(a, s) {
        lemma_stats_same_multiset(a, b, s);
    }
    if stats_of(b, s) {
        lemma_stats_same_multiset(b, a, s);
    }
}

} // verus!
