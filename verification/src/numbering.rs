//! The tasks of an asynchronous limiter by their place in the order in which they were scheduled.
use vstd::prelude::*;

use crate::history::{Event, History};
use crate::TaskResult;

verus! {

impl History {
    /// The tasks that are scheduled in the first `k` steps, in order. A task's place is its index in
    /// this sequence; it tells tasks apart that were given the same number.
    pub open spec fn scheduled_tasks(self, k: int) -> Seq<u64>
        decreases k,
    {
        if k <= 0 {
            Seq::empty()
        } else {
            match self.steps[k - 1].event {
                Event::Schedule { task } => self.scheduled_tasks(k - 1).push(task),
                _ => self.scheduled_tasks(k - 1),
            }
        }
    }

    /// The places of the tasks that are to be tried again after the first `k` steps.
    pub open spec fn retry_places(self, k: int) -> Seq<nat>
        decreases k,
    {
        if k <= 0 {
            Seq::empty()
        } else {
            let before = self.retry_places(k - 1);
            match self.steps[k - 1].event {
                Event::Schedule { task } => before,
                Event::Dispatch => if self.state(k - 1).can_start() && self.state(
                    k - 1,
                ).retries.len() > 0 {
                    before.drop_first()
                } else {
                    before
                },
                Event::Release { attempt, task, finish, result } => match result {
                    TaskResult::Success => before,
                    TaskResult::TryAgain => before.push(
                        if 0 <= attempt < k && self.state(attempt).retries.len() > 0 {
                            self.retry_places(attempt)[0]
                        } else {
                            self.fresh_started(attempt)
                        },
                    ),
                },
            }
        }
    }

    /// The place of the task that is first in line after the first `k` steps. Tasks have their first
    /// start in the order in which they were scheduled.
    pub open spec fn place(self, k: int) -> nat {
        if self.state(k).retries.len() > 0 {
            self.retry_places(k)[0]
        } else {
            self.fresh_started(k)
        }
    }

    /// Whether an attempt at the task with the given place fails in step `k`.
    pub open spec fn fails(self, k: int, place: nat) -> bool {
        &&& 0 <= k < self.steps.len()
        &&& self.steps[k].event is Release
        &&& self.steps[k].event->result is TryAgain
        &&& self.place(self.steps[k].event->attempt) == place
    }

    /// Whether the task with the given place is done in step `k`.
    pub open spec fn completes(self, k: int, place: nat) -> bool {
        &&& 0 <= k < self.steps.len()
        &&& self.steps[k].event is Release
        &&& self.steps[k].event->result is Success
        &&& self.place(self.steps[k].event->attempt) == place
    }

    /// The number of attempts at the task with the given place that fail in the first `k` steps.
    pub open spec fn failures_of(self, place: nat, k: int) -> nat
        decreases k,
    {
        if k <= 0 {
            0
        } else if self.fails(k - 1, place) {
            self.failures_of(place, k - 1) + 1
        } else {
            self.failures_of(place, k - 1)
        }
    }

    /// The number of attempts at the first `places` tasks that fail in the first `k` steps.
    pub open spec fn failures_of_first(self, places: nat, k: int) -> nat
        decreases places,
    {
        if places == 0 {
            0
        } else {
            self.failures_of_first((places - 1) as nat, k) + self.failures_of(
                (places - 1) as nat,
                k,
            )
        }
    }

    /// Whether the task with the given place is done in the first `k` steps.
    pub open spec fn is_done(self, place: nat, k: int) -> bool {
        exists|r: int| r < k && #[trigger] self.completes(r, place)
    }

    /// Whether an attempt at the task with the given place holds a slot after the first `k` steps.
    pub open spec fn is_held(self, place: nat, k: int) -> bool {
        exists|a: int| #[trigger] self.held(k).contains(a) && self.place(a) == place
    }

    proof fn lemma_scheduled_tasks_grow(self, k: int, m: int)
        requires
            0 <= k <= m,
        ensures
            self.scheduled_tasks(k).is_prefix_of(self.scheduled_tasks(m)),
            self.fresh_started(k) <= self.fresh_started(m),
        decreases m - k,
    {
        if k < m {
            self.lemma_scheduled_tasks_grow(k, m - 1);
        }
    }

    /// The places name the tasks that wait: those that are to be tried again have been started, and
    /// those that have not been tried yet are the ones that were scheduled last, in order.
    pub proof fn law_places_name_tasks(self, k: int)
        requires
            self.valid(),
            0 <= k <= self.steps.len(),
        ensures
            self.scheduled_tasks(k).len() == self.tasks_scheduled(k),
            self.fresh_started(k) + self.state(k).fresh.len() == self.tasks_scheduled(k),
            self.state(k).fresh == self.scheduled_tasks(k).skip(self.fresh_started(k) as int),
            self.retry_places(k).len() == self.state(k).retries.len(),
            forall|i: int|
                0 <= i < self.retry_places(k).len() ==> (#[trigger] self.retry_places(k)[i])
                    < self.fresh_started(k) && self.state(k).retries[i] == self.scheduled_tasks(
                    k,
                )[self.retry_places(k)[i] as int],
            self.state(k).line().len() > 0 ==> self.place(k) < self.tasks_scheduled(k)
                && self.state(k).line()[0] == self.scheduled_tasks(k)[self.place(k) as int],
        decreases k,
    {
        if k > 0 {
            self.law_places_name_tasks(k - 1);
            self.law_slots_are_accounted_for(k - 1);
            let before = self.state(k - 1);
            let now = self.state(k);
            match self.steps[k - 1].event {
                Event::Schedule { task } => {
                    assert(now.fresh =~= self.scheduled_tasks(k).skip(
                        self.fresh_started(k) as int,
                    ));
                },
                Event::Dispatch => {
                    assert(now.fresh =~= self.scheduled_tasks(k).skip(
                        self.fresh_started(k) as int,
                    ));
                },
                Event::Release { attempt, task, finish, result } => {
                    assert(self.release_is_due(k - 1));
                    self.law_places_name_tasks(attempt);
                    self.lemma_scheduled_tasks_grow(attempt, k - 1);
                    self.lemma_scheduled_tasks_grow(attempt + 1, k - 1);
                    assert(self.place(attempt) < self.fresh_started(attempt + 1));
                },
            }
        }
    }

    /// A task that has been started is done, is to be tried again or holds a slot.
    pub proof fn law_started_tasks_are_somewhere(self, place: nat, k: int)
        requires
            self.valid(),
            0 <= k <= self.steps.len(),
            place < self.fresh_started(k),
        ensures
            self.is_done(place, k) || self.retry_places(k).contains(place) || self.is_held(place, k),
        decreases k,
    {
        self.law_places_name_tasks(k - 1);
        self.law_slots_are_accounted_for(k - 1);
        let step = self.steps[k - 1];
        let before = self.retry_places(k - 1);
        let now = self.retry_places(k);
        if self.starts(k - 1) && self.place(k - 1) == place {
            assert(self.held(k).contains(k - 1)) by {
                assert forall|r: int| r < k implies !#[trigger] self.releases(r, k - 1) by {
                    if self.releases(r, k - 1) {
                        assert(self.release_is_due(r));
                    }
                }
            }
        } else {
            self.law_started_tasks_are_somewhere(place, k - 1);
            if self.is_done(place, k - 1) {
                let r = choose|r: int| r < k - 1 && #[trigger] self.completes(r, place);
                assert(self.completes(r, place));
            } else if before.contains(place) {
                let i = choose|i: int| 0 <= i < before.len() && before[i] == place;
                if self.starts(k - 1) {
                    assert(before[0] == self.place(k - 1));
                    assert(now[i - 1] == place);
                } else {
                    assert(now[i] == place);
                }
            } else {
                let a = choose|a: int| #[trigger]
                    self.held(k - 1).contains(a) && self.place(a) == place;
                if self.releases(k - 1, a) {
                    assert(self.release_is_due(k - 1));
                    if step.event->result is Success {
                        assert(self.completes(k - 1, place));
                    } else {
                        assert(now[before.len() as int] == place);
                    }
                } else {
                    assert(self.held(k).contains(a)) by {
                        assert forall|r: int| r < k implies !#[trigger] self.releases(r, a) by {}
                    }
                }
            }
        }
    }

    proof fn lemma_failures_of_first_step(self, places: nat, k: int)
        requires
            0 < k <= self.steps.len(),
        ensures
            ({
                let step = self.steps[k - 1];
                let counted = step.event is Release && step.event->result is TryAgain
                    && self.place(step.event->attempt) < places;
                self.failures_of_first(places, k) == self.failures_of_first(places, k - 1)
                    + if counted {
                    1nat
                } else {
                    0
                }
            }),
        decreases places,
    {
        if places > 0 {
            self.lemma_failures_of_first_step((places - 1) as nat, k);
        }
    }

    /// Every attempt that fails is one at a task that has been started.
    pub proof fn lemma_failures_are_of_started_tasks(self, places: nat, k: int)
        requires
            self.valid(),
            0 <= k <= self.steps.len(),
            self.fresh_started(k) <= places,
        ensures
            self.attempts_failed(k) == self.failures_of_first(places, k),
        decreases k,
    {
        if k == 0 {
            self.lemma_no_failures_yet(places);
        } else {
            self.lemma_failures_are_of_started_tasks(places, k - 1);
            self.lemma_failures_of_first_step(places, k);
            if self.steps[k - 1].event is Release {
                let attempt = self.steps[k - 1].event->attempt;
                assert(self.release_is_due(k - 1));
                self.law_places_name_tasks(attempt);
                self.lemma_scheduled_tasks_grow(attempt + 1, k);
                assert(self.place(attempt) < self.fresh_started(attempt + 1));
            }
        }
    }

    proof fn lemma_no_failures_yet(self, places: nat)
        ensures
            self.failures_of_first(places, 0) == 0,
        decreases places,
    {
        if places > 0 {
            self.lemma_no_failures_yet((places - 1) as nat);
        }
    }
}

} // verus!
