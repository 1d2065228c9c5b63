use vstd::prelude::*;
use crate::outcome::{CheckOutcome, CheckResult};

verus! {

/// One URL handed to a worker, with its position in the input.
#[derive(Debug)]
pub struct Job {
    pub index: usize,
    pub url: String,
}

/// Why a completion was refused.
#[derive(Debug, PartialEq, Eq, Structural)]
pub enum CompleteError {
    /// No job with this index has been handed out.
    NotClaimed,
    /// The job already has its result.
    AlreadyCompleted,
}

/// The state that the workers share: the queue of URLs, handed out in input
/// order one at a time, and the results, kept in the order they arrive.
pub struct Dispatcher {
    urls: Vec<String>,
    next: usize,
    done: Vec<bool>,
    results: Vec<CheckResult>,
    jobs: Vec<usize>,
}

/// How many entries of `s` are set.
pub open spec fn count_set(s: Seq<bool>) -> nat
    decreases s.len(),
{
    if s.len() == 0 {
        0
    } else {
        count_set(s.drop_last()) + if s.last() {
            1nat
        } else {
            0nat
        }
    }
}

proof fn lemma_count_set_bound(s: Seq<bool>)
    ensures
        count_set(s) <= s.len(),
        count_set(s) == s.len() ==> forall|i: int| 0 <= i < s.len() ==> #[trigger] s[i],
    decreases s.len(),
{
    if s.len() > 0 {
        lemma_count_set_bound(s.drop_last());
        if count_set(s) == s.len() {
            assert forall|i: int| 0 <= i < s.len() implies #[trigger] s[i] by {
                if i < s.len() - 1 {
                    assert(s.drop_last()[i] == s[i]);
                }
            }
        }
    }
}

proof fn lemma_count_set_update(s: Seq<bool>, i: int)
    requires
        0 <= i < s.len(),
        !s[i],
    ensures
        count_set(s.update(i, true)) == count_set(s) + 1,
    decreases s.len(),
{
    let t = s.update(i, true);
    if i == s.len() - 1 {
        assert(t.drop_last() =~= s.drop_last());
    } else {
        assert(t.drop_last() =~= s.drop_last().update(i, true));
        lemma_count_set_update(s.drop_last(), i);
    }
}

proof fn lemma_count_set_all(s: Seq<bool>)
    requires
        forall|i: int| 0 <= i < s.len() ==> #[trigger] s[i],
    ensures
        count_set(s) == s.len(),
    decreases s.len(),
{
    if s.len() > 0 {
        let p = s.drop_last();
        assert forall|i: int| 0 <= i < p.len() implies #[trigger] p[i] by {
            assert(p[i] == s[i]);
        }
        lemma_count_set_all(p);
        assert(s.last() == s[s.len() - 1]);
    }
}

proof fn lemma_count_set_none(n: nat)
    ensures
        count_set(Seq::new(n, |i: int| false)) == 0,
    decreases n,
{
    if n > 0 {
        assert(Seq::new(n, |i: int| false).drop_last() =~= Seq::new((n - 1) as nat, |i: int| false));
        lemma_count_set_none((n - 1) as nat);
    }
}

/// Some entry of `jobs` is `i`.
pub open spec fn covers(jobs: Seq<usize>, i: int) -> bool {
    exists|k: int| 0 <= k < jobs.len() && jobs[k] == i
}

impl Dispatcher {
    /// The URLs in input order.
    pub closed spec fn urls(self) -> Seq<String> {
        self.urls@
    }

    /// How many jobs have been handed out: always the first ones in input order.
    pub closed spec fn claimed(self) -> nat {
        self.next as nat
    }

    /// The results in arrival order.
    pub closed spec fn results(self) -> Seq<CheckResult> {
        self.results@
    }

    /// For each result, the index of the job it belongs to.
    pub closed spec fn job_of(self) -> Seq<usize> {
        self.jobs@
    }

    /// Whether job `i` has its result.
    pub closed spec fn is_completed(self, i: int) -> bool {
        self.done@[i]
    }

    pub closed spec fn wf(self) -> bool {
        &&& self.next <= self.urls@.len()
        &&& self.done@.len() == self.urls@.len()
        &&& self.results@.len() == self.jobs@.len()
        &&& self.results@.len() == count_set(self.done@)
        &&& forall|i: int| 0 <= i < self.done@.len() && #[trigger] self.done@[i] ==> i < self.next
        &&& forall|k: int|
            0 <= k < self.jobs@.len() ==> {
                &&& (#[trigger] self.jobs@[k]) < self.next
                &&& self.done@[self.jobs@[k] as int]
                &&& self.results@[k].url == self.urls@[self.jobs@[k] as int]
            }
        &&& forall|k1: int, k2: int|
            0 <= k1 < self.jobs@.len() && 0 <= k2 < self.jobs@.len() && k1 != k2
                ==> #[trigger] self.jobs@[k1] != #[trigger] self.jobs@[k2]
        &&& forall|i: int|
            0 <= i < self.done@.len() && #[trigger] self.done@[i] ==> exists|k: int|
                0 <= k < self.jobs@.len() && #[trigger] self.jobs@[k] == i
    }

    /// Every job has been handed out and has its result: nothing more will come.
    pub open spec fn drained(self) -> bool {
        self.results().len() == self.urls().len()
    }

    /// A dispatcher for `urls`, with nothing handed out yet.
    pub fn new(urls: Vec<String>) -> (r: Dispatcher)
        ensures
            r.wf(),
            r.urls() == urls@,
            r.claimed() == 0,
            r.results().len() == 0,
    {
        let n = urls.len();
        let mut done: Vec<bool> = Vec::new();
        let mut i: usize = 0;
        while i < n
            invariant
                i <= n,
                done@ =~= Seq::new(i as nat, |j: int| false),
            decreases n - i,
        {
            done.push(false);
            i = i + 1;
        }
        proof {
            lemma_count_set_none(n as nat);
        }
        Dispatcher { urls, next: 0, done, results: Vec::new(), jobs: Vec::new() }
    }

    /// Hands out the next URL in input order, or `None` once all have been
    /// handed out (a worker that sees `None` stops).
    pub fn claim(&mut self) -> (r: Option<Job>)
        requires
            old(self).wf(),
        ensures
            final(self).wf(),
            final(self).urls() == old(self).urls(),
            final(self).results() == old(self).results(),
            final(self).job_of() == old(self).job_of(),
            old(self).claimed() < old(self).urls().len() ==> {
                &&& r is Some
                &&& r->Some_0.index == old(self).claimed()
                &&& r->Some_0.url == old(self).urls()[old(self).claimed() as int]
                &&& final(self).claimed() == old(self).claimed() + 1
            },
            old(self).claimed() == old(self).urls().len() ==> {
                &&& r is None
                &&& final(self).claimed() == old(self).claimed()
            },
            forall|i: int| 0 <= i < old(self).urls().len() ==> final(self).is_completed(i)
                == old(self).is_completed(i),
    {
        if self.next < self.urls.len() {
            let index = self.next;
            let url = self.urls[index].clone();
            let ghost before = *self;
            self.next = self.next + 1;
            assert forall|i: int|
                0 <= i < self.done@.len() && #[trigger] self.done@[i] implies exists|k: int|
                0 <= k < self.jobs@.len() && #[trigger] self.jobs@[k] == i by {
                assert(before.wf());
                assert(before.done@[i]);
                let k = choose|k: int| 0 <= k < before.jobs@.len() && before.jobs@[k] == i;
                assert(self.jobs@[k] == i);
            }
            Some(Job { index, url })
        } else {
            None
        }
    }

    /// Records the result of job `index`: it must have been handed out and
    /// not completed yet. The result carries the job's URL as given.
    pub fn complete(
        &mut self,
        index: usize,
        outcome: CheckOutcome,
        elapsed_ms: u64,
        timestamp: String,
    ) -> (r: Result<(), CompleteError>)
        requires
            old(self).wf(),
        ensures
            final(self).wf(),
            final(self).urls() == old(self).urls(),
            final(self).claimed() == old(self).claimed(),
            index >= old(self).claimed() ==> r == Err::<(), CompleteError>(
                CompleteError::NotClaimed,
            ),
            index < old(self).claimed() && old(self).is_completed(index as int) ==> r == Err::<
                (),
                CompleteError,
            >(CompleteError::AlreadyCompleted),
            r is Err ==> final(self).results() == old(self).results() && final(self).job_of()
                == old(self).job_of(),
            index < old(self).claimed() && !old(self).is_completed(index as int) ==> {
                &&& r is Ok
                &&& final(self).results() == old(self).results().push(
                    CheckResult {
                        url: old(self).urls()[index as int],
                        outcome,
                        elapsed_ms,
                        timestamp,
                    },
                )
                &&& final(self).job_of() == old(self).job_of().push(index)
                &&& final(self).is_completed(index as int)
            },
    {
        if index >= self.next {
            return Err(CompleteError::NotClaimed);
        }
        if self.done[index] {
            return Err(CompleteError::AlreadyCompleted);
        }
        let url = self.urls[index].clone();
        let ghost old_self = *self;
        proof {
            lemma_count_set_update(self.done@, index as int);
            lemma_count_set_bound(self.done@.update(index as int, true));
        }
        self.done.set(index, true);
        self.results.push(CheckResult { url, outcome, elapsed_ms, timestamp });
        self.jobs.push(index);
        assert forall|i: int| 0 <= i < self.done@.len() && #[trigger] self.done@[i] implies exists|
            k: int,
        | 0 <= k < self.jobs@.len() && #[trigger] self.jobs@[k] == i by {
            if i == index {
                assert(self.jobs@[self.jobs@.len() - 1] == i);
            } else {
                assert(old_self.done@[i]);
                let k = choose|k: int| 0 <= k < old_self.jobs@.len() && old_self.jobs@[k] == i;
                assert(self.jobs@[k] == i);
            }
        }
        assert forall|k1: int, k2: int|
            0 <= k1 < self.jobs@.len() && 0 <= k2 < self.jobs@.len() && k1 != k2 implies #[trigger] self.jobs@[k1]
            != #[trigger] self.jobs@[k2] by {
            let last = self.jobs@.len() - 1;
            if k1 == last && k2 != last {
                assert(old_self.jobs@[k2] == self.jobs@[k2]);
                assert(old_self.done@[old_self.jobs@[k2] as int]);
            } else if k2 == last && k1 != last {
                assert(old_self.jobs@[k1] == self.jobs@[k1]);
                assert(old_self.done@[old_self.jobs@[k1] as int]);
            } else if k1 != last && k2 != last {
                assert(old_self.jobs@[k1] == self.jobs@[k1]);
                assert(old_self.jobs@[k2] == self.jobs@[k2]);
            }
        }
        Ok(())
    }

    /// Whether every job has been handed out and completed.
    pub fn is_drained(&self) -> (r: bool)
        requires
            self.wf(),
        ensures
            r == self.drained(),
    {
        self.results.len() == self.urls.len()
    }

    /// How many jobs are still to be handed out.
    pub fn pending(&self) -> (r: usize)
        requires
            self.wf(),
        ensures
            r == self.urls().len() - self.claimed(),
    {
        self.urls.len() - self.next
    }

    /// The results, in the order they arrived.
    pub fn into_results(self) -> (r: Vec<CheckResult>)
        ensures
            r@ == self.results(),
    {
        self.results
    }

    /// Until the dispatcher is drained there is work left: a URL still to hand
    /// out, or a handed-out job still waiting for its result. So with any
    /// number of workers, each claiming until `claim` says `None` and
    /// completing what it claimed, the run reaches the drained state.
    pub proof fn lemma_work_left(self)
        requires
            self.wf(),
            !self.drained(),
        ensures
            self.claimed() < self.urls().len() || exists|i: int|
                0 <= i < self.claimed() && !#[trigger] self.is_completed(i),
    {
        if self.next == self.urls@.len() {
            if forall|i: int| 0 <= i < self.next ==> #[trigger] self.done@[i] {
                lemma_count_set_all(self.done@);
            } else {
                let i = choose|i: int| 0 <= i < self.next && !self.done@[i];
                assert(!self.is_completed(i));
            }
        }
    }

    /// Once drained, the results are exactly one per input URL: as many as
    /// there are URLs, every URL index is covered by exactly one result, and
    /// that result carries the URL as given.
    pub proof fn lemma_drained_one_per_url(self)
        requires
            self.wf(),
            self.drained(),
        ensures
            self.results().len() == self.urls().len(),
            self.claimed() == self.urls().len(),
            self.job_of().len() == self.results().len(),
            forall|i: int| 0 <= i < self.urls().len() ==> #[trigger] covers(self.job_of(), i),
            forall|k1: int, k2: int|
                0 <= k1 < self.job_of().len() && 0 <= k2 < self.job_of().len() && k1 != k2
                    ==> #[trigger] self.job_of()[k1] != #[trigger] self.job_of()[k2],
            forall|k: int|
                0 <= k < self.results().len() ==> (#[trigger] self.results()[k]).url
                    == self.urls()[self.job_of()[k] as int],
    {
        lemma_count_set_bound(self.done@);
        if self.next < self.urls@.len() {
            let i = self.urls@.len() - 1;
            assert(self.done@[i]);
        }
        assert forall|i: int| 0 <= i < self.urls().len() implies #[trigger] covers(
            self.job_of(),
            i,
        ) by {
            assert(self.done@[i]);
        }
        assert forall|k: int| 0 <= k < self.results().len() implies (#[trigger] self.results()[k]).url
            == self.urls()[self.job_of()[k] as int] by {
            assert(self.jobs@[k] < self.next);
        }
    }
}

/// The position in arrival order of the result of job `i`.
pub open spec fn position_of(d: Dispatcher, i: int) -> int {
    choose|k: int| 0 <= k < d.job_of().len() && d.job_of()[k] == i
}

/// Two drained runs over the same URLs, in which each URL met the same
/// outcome, hold the same results up to order: for every input position, the
/// one result of that job has the same URL and outcome in both, however the
/// jobs were spread over the workers and in whatever order they finished.
pub proof fn lemma_same_content_any_order(d1: Dispatcher, d2: Dispatcher)
    requires
        d1.wf(),
        d2.wf(),
        d1.drained(),
        d2.drained(),
        d1.urls() == d2.urls(),
        forall|k1: int, k2: int|
            0 <= k1 < d1.job_of().len() && 0 <= k2 < d2.job_of().len() && d1.job_of()[k1]
                == d2.job_of()[k2] ==> (#[trigger] d1.results()[k1]).outcome == (
            #[trigger] d2.results()[k2]).outcome,
    ensures
        d1.results().len() == d2.results().len(),
        forall|i: int|
            0 <= i < d1.urls().len() ==> {
                &&& (#[trigger] d1.results()[position_of(d1, i)]).url == d1.urls()[i]
                &&& d2.results()[position_of(d2, i)].url == d1.urls()[i]
                &&& d1.results()[position_of(d1, i)].outcome == d2.results()[position_of(
                    d2,
                    i,
                )].outcome
            },
{
    d1.lemma_drained_one_per_url();
    d2.lemma_drained_one_per_url();
    assert forall|i: int| 0 <= i < d1.urls().len() implies {
        &&& (#[trigger] d1.results()[position_of(d1, i)]).url == d1.urls()[i]
        &&& d2.results()[position_of(d2, i)].url == d1.urls()[i]
        &&& d1.results()[position_of(d1, i)].outcome == d2.results()[position_of(d2, i)].outcome
    } by {
        assert(covers(d1.job_of(), i));
        assert(covers(d2.job_of(), i));
        let k1 = position_of(d1, i);
        let k2 = position_of(d2, i);
        assert(d1.results()[k1].url == d1.urls()[d1.job_of()[k1] as int]);
        assert(d2.results()[k2].url == d2.urls()[d2.job_of()[k2] as int]);
    }
}

} // verus!
