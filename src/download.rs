use vstd::prelude::*;

use crate::error::RobinError;

verus! {

/// Where a chapter stands in a download run. A chapter is `Discovered` until
/// the run admits it, `Fetching` while its body is retrieved, `Fetched` once
/// the body is held in memory and `Persisted` once it is written to the
/// staging area; `Failed` is terminal and is reached from `Fetching`.
#[derive(Clone, Copy, Debug, PartialEq, Eq, Structural)]
pub enum ChapterState {
    Discovered,
    Fetching,
    Fetched,
    Persisted,
    Failed,
}

/// What the driver of a run should do next.
#[derive(Clone, Copy, Debug, PartialEq, Eq, Structural)]
pub enum Action {
    /// Admit this chapter: start its task.
    Start(usize),
    /// Wait for a task in flight to report.
    Wait,
    /// Every chapter has settled: finish the run.
    Done,
}

pub open spec fn is_in_flight(s: ChapterState) -> bool {
    s == ChapterState::Fetching || s == ChapterState::Fetched
}

pub open spec fn in_flight_pred() -> spec_fn(ChapterState) -> bool {
    |s: ChapterState| is_in_flight(s)
}

pub open spec fn persisted_pred() -> spec_fn(ChapterState) -> bool {
    |s: ChapterState| s == ChapterState::Persisted
}

pub open spec fn failed_pred() -> spec_fn(ChapterState) -> bool {
    |s: ChapterState| s == ChapterState::Failed
}

/// The number of states in `s` that satisfy `p`.
pub open spec fn count_where(s: Seq<ChapterState>, p: spec_fn(ChapterState) -> bool) -> nat
    decreases s.len(),
{
    if s.len() == 0 {
        0
    } else {
        count_where(s.drop_last(), p) + if p(s.last()) {
            1nat
        } else {
            0nat
        }
    }
}

/// The number of chapters whose task is in flight.
pub open spec fn in_flight_count(s: Seq<ChapterState>) -> nat {
    count_where(s, in_flight_pred())
}

/// The number of chapters written to the staging area.
pub open spec fn persisted_count(s: Seq<ChapterState>) -> nat {
    count_where(s, persisted_pred())
}

proof fn lemma_count_update(
    s: Seq<ChapterState>,
    i: int,
    x: ChapterState,
    p: spec_fn(ChapterState) -> bool,
)
    requires
        0 <= i < s.len(),
    ensures
        count_where(s.update(i, x), p) + (if p(s[i]) {
            1int
        } else {
            0int
        }) == count_where(s, p) + (if p(x) {
            1int
        } else {
            0int
        }),
    decreases s.len(),
{
    if i == s.len() - 1 {
        assert(s.update(i, x).drop_last() =~= s.drop_last());
    } else {
        lemma_count_update(s.drop_last(), i, x, p);
        assert(s.update(i, x).drop_last() =~= s.drop_last().update(i, x));
    }
}

proof fn lemma_count_le(s: Seq<ChapterState>, p: spec_fn(ChapterState) -> bool)
    ensures
        count_where(s, p) <= s.len(),
    decreases s.len(),
{
    if s.len() > 0 {
        lemma_count_le(s.drop_last(), p);
    }
}

proof fn lemma_count_zero(s: Seq<ChapterState>, p: spec_fn(ChapterState) -> bool, i: int)
    requires
        count_where(s, p) == 0,
        0 <= i < s.len(),
    ensures
        !p(s[i]),
    decreases s.len(),
{
    if i < s.len() - 1 {
        lemma_count_zero(s.drop_last(), p, i);
    }
}

proof fn lemma_count_all(s: Seq<ChapterState>, p: spec_fn(ChapterState) -> bool)
    requires
        forall|i: int| 0 <= i < s.len() ==> p(#[trigger] s[i]),
    ensures
        count_where(s, p) == s.len(),
    decreases s.len(),
{
    if s.len() > 0 {
        lemma_count_all(s.drop_last(), p);
    }
}

proof fn lemma_count_none(s: Seq<ChapterState>, p: spec_fn(ChapterState) -> bool)
    requires
        forall|i: int| 0 <= i < s.len() ==> !p(#[trigger] s[i]),
    ensures
        count_where(s, p) == 0,
    decreases s.len(),
{
    if s.len() > 0 {
        lemma_count_none(s.drop_last(), p);
    }
}

/// The bookkeeping of one download run: which chapters are admitted, in
/// flight, written or failed, under a bound on the tasks in flight.
pub struct DownloadRun {
    /// The most tasks in flight at once.
    pub limit: usize,
    /// The state of each chapter, in chapter order.
    pub states: Vec<ChapterState>,
    /// Chapters before this index have been admitted, the others not.
    pub next: usize,
    /// The number of chapters in flight.
    pub in_flight: usize,
    /// The number of chapters written: the progress count.
    pub persisted: usize,
    /// The failed chapter with the lowest index, with its error.
    pub first_failure: Option<(usize, RobinError)>,
}

/// The index of a recorded failure.
pub open spec fn failure_index(f: Option<(usize, RobinError)>) -> int {
    match f {
        Some((i, _)) => i as int,
        None => -1,
    }
}

impl DownloadRun {
    pub open spec fn wf(&self) -> bool {
        let s = self.states@;
        &&& self.limit >= 1
        &&& self.next <= s.len()
        &&& forall|i: int| 0 <= i < self.next ==> s[i] != ChapterState::Discovered
        &&& forall|i: int| self.next <= i < s.len() ==> s[i] == ChapterState::Discovered
        &&& self.in_flight == in_flight_count(s)
        &&& self.persisted == persisted_count(s)
        &&& self.in_flight <= self.limit
        &&& match self.first_failure {
            None => forall|i: int| 0 <= i < s.len() ==> s[i] != ChapterState::Failed,
            Some((k, _)) => {
                &&& k < s.len()
                &&& s[k as int] == ChapterState::Failed
                &&& forall|i: int| 0 <= i < k ==> s[i] != ChapterState::Failed
            },
        }
    }

    /// Whether the run may admit another chapter now.
    pub open spec fn can_start(&self) -> bool {
        self.next < self.states@.len() && self.in_flight < self.limit
    }

    /// Whether every chapter has been admitted and has settled.
    pub open spec fn is_settled(&self) -> bool {
        self.next == self.states@.len() && self.in_flight == 0
    }

    /// A run over `chapter_count` chapters, none admitted yet, with at most
    /// `limit` in flight at once.
    pub fn new(chapter_count: usize, limit: usize) -> (r: DownloadRun)
        requires
            limit >= 1,
        ensures
            r.wf(),
            r.limit == limit,
            r.next == 0,
            r.in_flight == 0,
            r.persisted == 0,
            r.first_failure is None,
            r.states@ == Seq::new(chapter_count as nat, |i: int| ChapterState::Discovered),
    {
        let mut states: Vec<ChapterState> = Vec::new();
        let mut i: usize = 0;
        while i < chapter_count
            invariant
                i <= chapter_count,
                states@ == Seq::new(i as nat, |j: int| ChapterState::Discovered),
            decreases chapter_count - i,
        {
            states.push(ChapterState::Discovered);
            i = i + 1;
            assert(states@ =~= Seq::new(i as nat, |j: int| ChapterState::Discovered));
        }
        proof {
            lemma_count_none(states@, in_flight_pred());
            lemma_count_none(states@, persisted_pred());
        }
        DownloadRun { limit, states, next: 0, in_flight: 0, persisted: 0, first_failure: None }
    }

    /// What to do next: admit the next chapter while fewer than `limit` are
    /// in flight, wait while any is in flight, and finish once all settled.
    pub fn next_action(&self) -> (r: Action)
        requires
            self.wf(),
        ensures
            self.can_start() ==> r == Action::Start(self.next),
            !self.can_start() && self.in_flight > 0 ==> r == Action::Wait,
            !self.can_start() && self.in_flight == 0 ==> r == Action::Done && self.is_settled(),
    {
        if self.next < self.states.len() && self.in_flight < self.limit {
            Action::Start(self.next)
        } else if self.in_flight > 0 {
            Action::Wait
        } else {
            Action::Done
        }
    }

    /// Admits the next chapter, in chapter order, if fewer than `limit` are
    /// in flight; returns its index.
    pub fn start(&mut self) -> (r: Option<usize>)
        requires
            old(self).wf(),
        ensures
            final(self).wf(),
            final(self).limit == old(self).limit,
            old(self).can_start() ==> {
                &&& r == Some(old(self).next)
                &&& final(self).next == old(self).next + 1
                &&& final(self).persisted == old(self).persisted
                &&& final(self).in_flight == old(self).in_flight + 1
                &&& final(self).first_failure == old(self).first_failure
                &&& final(self).states@ == old(self).states@.update(
                    old(self).next as int,
                    ChapterState::Fetching,
                )
            },
            !old(self).can_start() ==> r is None && *final(self) == *old(self),
    {
        if self.next < self.states.len() && self.in_flight < self.limit {
            let i = self.next;
            proof {
                lemma_count_update(self.states@, i as int, ChapterState::Fetching, in_flight_pred());
                lemma_count_update(self.states@, i as int, ChapterState::Fetching, persisted_pred());
            }
            self.states.set(i, ChapterState::Fetching);
            self.next = i + 1;
            self.in_flight = self.in_flight + 1;
            Some(i)
        } else {
            None
        }
    }

    /// Records that chapter `i`'s body was retrieved. Only a chapter that
    /// is `Fetching` moves; the result says whether it did.
    pub fn fetched(&mut self, i: usize) -> (r: bool)
        requires
            old(self).wf(),
        ensures
            final(self).wf(),
            r == (i < old(self).states@.len() && old(self).states@[i as int]
                == ChapterState::Fetching),
            r ==> final(self).states@ == old(self).states@.update(i as int, ChapterState::Fetched)
                && final(self).next == old(self).next && final(self).limit == old(self).limit
                && final(self).persisted == old(self).persisted && final(self).in_flight == old(
                self,
            ).in_flight && final(self).first_failure == old(self).first_failure,
            !r ==> *final(self) == *old(self),
    {
        if i < self.states.len() && self.states[i] == ChapterState::Fetching {
            proof {
                lemma_count_update(self.states@, i as int, ChapterState::Fetched, in_flight_pred());
                lemma_count_update(self.states@, i as int, ChapterState::Fetched, persisted_pred());
            }
            self.states.set(i, ChapterState::Fetched);
            true
        } else {
            false
        }
    }

    /// Records that chapter `i` was written to the staging area. Only a
    /// chapter that is `Fetched` moves; the result says whether it did.
    pub fn persisted(&mut self, i: usize) -> (r: bool)
        requires
            old(self).wf(),
        ensures
            final(self).wf(),
            r == (i < old(self).states@.len() && old(self).states@[i as int]
                == ChapterState::Fetched),
            r ==> final(self).states@ == old(self).states@.update(
                i as int,
                ChapterState::Persisted,
            ) && final(self).next == old(self).next && final(self).limit == old(self).limit
                && final(self).persisted == old(self).persisted + 1 && final(self).in_flight == old(
                self,
            ).in_flight - 1 && final(self).first_failure == old(self).first_failure,
            !r ==> *final(self) == *old(self),
    {
        if i < self.states.len() && self.states[i] == ChapterState::Fetched {
            proof {
                lemma_count_update(self.states@, i as int, ChapterState::Persisted, in_flight_pred());
                lemma_count_update(self.states@, i as int, ChapterState::Persisted, persisted_pred());
                lemma_count_le(self.states@.update(i as int, ChapterState::Persisted), persisted_pred());
            }
            self.states.set(i, ChapterState::Persisted);
            self.in_flight = self.in_flight - 1;
            self.persisted = self.persisted + 1;
            true
        } else {
            false
        }
    }

    /// Records that chapter `i` failed with `error` while being fetched.
    /// Only a chapter that is `Fetching` moves; the result says whether it
    /// did. The failure is kept if no chapter before `i` has failed.
    pub fn failed(&mut self, i: usize, error: RobinError) -> (r: bool)
        requires
            old(self).wf(),
        ensures
            final(self).wf(),
            r == (i < old(self).states@.len() && old(self).states@[i as int]
                == ChapterState::Fetching),
            r ==> final(self).states@ == old(self).states@.update(i as int, ChapterState::Failed)
                && final(self).next == old(self).next && final(self).limit == old(self).limit
                && final(self).persisted == old(self).persisted && final(self).in_flight == old(
                self,
            ).in_flight - 1,
            r ==> failure_index(final(self).first_failure) == if old(self).first_failure is None
                || i < failure_index(old(self).first_failure) {
                i as int
            } else {
                failure_index(old(self).first_failure)
            },
            !r ==> *final(self) == *old(self),
    {
        if i < self.states.len() && self.states[i] == ChapterState::Fetching {
            proof {
                lemma_count_update(self.states@, i as int, ChapterState::Failed, in_flight_pred());
                lemma_count_update(self.states@, i as int, ChapterState::Failed, persisted_pred());
            }
            self.states.set(i, ChapterState::Failed);
            self.in_flight = self.in_flight - 1;
            let replace = match &self.first_failure {
                None => true,
                Some((k, _)) => i < *k,
            };
            if replace {
                self.first_failure = Some((i, error));
            }
            true
        } else {
            false
        }
    }

    /// The outcome of a settled run: the number of chapters written when
    /// none failed, else the error of the failed chapter with the lowest
    /// index. Every chapter has then been written or has failed.
    pub fn finish(self) -> (r: Result<usize, RobinError>)
        requires
            self.wf(),
            self.is_settled(),
        ensures
            forall|i: int|
                0 <= i < self.states@.len() ==> #[trigger] self.states@[i]
                    == ChapterState::Persisted || self.states@[i] == ChapterState::Failed,
            match r {
                Ok(n) => n == self.states@.len() && forall|i: int|
                    0 <= i < self.states@.len() ==> #[trigger] self.states@[i]
                        == ChapterState::Persisted,
                Err(e) => self.first_failure matches Some((k, e2)) && e == e2,
            },
    {
        proof {
            assert forall|i: int| 0 <= i < self.states@.len() implies #[trigger] self.states@[i]
                == ChapterState::Persisted || self.states@[i] == ChapterState::Failed by {
                lemma_count_zero(self.states@, in_flight_pred(), i);
            }
        }
        match self.first_failure {
            Some((_, e)) => Err(e),
            None => {
                proof {
                    lemma_count_all(self.states@, persisted_pred());
                }
                Ok(self.persisted)
            },
        }
    }
}

proof fn lemma_count_split(s: Seq<ChapterState>)
    requires
        forall|i: int|
            0 <= i < s.len() ==> #[trigger] s[i] == ChapterState::Persisted || s[i]
                == ChapterState::Failed,
    ensures
        persisted_count(s) + count_where(s, failed_pred()) == s.len(),
    decreases s.len(),
{
    if s.len() > 0 {
        assert(s.last() == s[s.len() - 1]);
        lemma_count_split(s.drop_last());
    }
}

/// Once a run has settled, each chapter was written or failed: the
/// progress count is the number of chapters less the failures, and it
/// reaches the number of chapters exactly when none failed.
pub proof fn lemma_settled_counts(run: &DownloadRun)
    requires
        run.wf(),
        run.is_settled(),
    ensures
        forall|i: int|
            0 <= i < run.states@.len() ==> #[trigger] run.states@[i] == ChapterState::Persisted
                || run.states@[i] == ChapterState::Failed,
        run.persisted + count_where(run.states@, failed_pred()) == run.states@.len(),
        run.first_failure is None <==> run.persisted == run.states@.len(),
{
    let s = run.states@;
    assert forall|i: int| 0 <= i < s.len() implies #[trigger] s[i] == ChapterState::Persisted
        || s[i] == ChapterState::Failed by {
        lemma_count_zero(s, in_flight_pred(), i);
    }
    lemma_count_split(s);
    match run.first_failure {
        Some((k, _)) => {
            assert(failed_pred()(s[k as int]));
            if count_where(s, failed_pred()) == 0 {
                lemma_count_zero(s, failed_pred(), k as int);
            }
        },
        None => {
            lemma_count_none(s, failed_pred());
        },
    }
}

/// However a run is driven, the tasks in flight never outnumber its limit:
/// the well-formedness that every step of a run keeps bounds them.
pub proof fn lemma_in_flight_bounded(run: &DownloadRun)
    requires
        run.wf(),
    ensures
        in_flight_count(run.states@) <= run.limit,
{
}

} // verus!
