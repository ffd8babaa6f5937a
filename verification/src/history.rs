//! What follows for every history of an asynchronous limiter.
use vstd::prelude::*;
use vstd::set_lib::lemma_len_subset;

use crate::schedule::Schedule;
use crate::TaskResult;

verus! {

/// Something that happens to a limiter.
pub enum Event {
    /// A task is scheduled.
    Schedule { task: u64 },
    /// The dispatcher looks for a slot and a task, and starts the task if it finds both.
    Dispatch,
    /// The slot is released of the attempt at `task` that was started in the step `attempt`. The
    /// attempt finished at `finish` and came to `result`.
    Release { attempt: int, task: u64, finish: nat, result: TaskResult },
}

/// An event and the time, in nanoseconds, at which it happens.
pub struct Step {
    pub at: nat,
    pub event: Event,
}

/// What has happened to a limiter of `amount` slots since it was created, in order.
pub struct History {
    pub amount: nat,
    pub per_time: nat,
    pub steps: Seq<Step>,
}

impl History {
    /// The state of the limiter after the first `k` steps.
    pub open spec fn state(self, k: int) -> Schedule
        decreases k,
    {
        if k <= 0 {
            Schedule::new(self.amount, self.per_time)
        } else {
            let before = self.state(k - 1);
            match self.steps[k - 1].event {
                Event::Schedule { task } => before.scheduled(task),
                Event::Dispatch => before.dispatched(),
                Event::Release { attempt, task, finish, result } => before.released(task, result),
            }
        }
    }

    /// Whether an attempt starts in step `k`.
    pub open spec fn starts(self, k: int) -> bool {
        &&& 0 <= k < self.steps.len()
        &&& self.steps[k].event is Dispatch
        &&& self.state(k).can_start()
    }

    /// Whether the slot of the attempt that started in step `attempt` is released in step `k`.
    pub open spec fn releases(self, k: int, attempt: int) -> bool {
        &&& 0 <= k < self.steps.len()
        &&& self.steps[k].event is Release
        &&& self.steps[k].event->attempt == attempt
    }

    /// Whether the release in step `k` is one that can happen: of an attempt that was started
    /// before, at the same task, once, and not before `per_time` has passed since it finished. That
    /// is the interval for which a [`Cooldown`](crate::async_rt::Cooldown) is to be slept through.
    pub open spec fn release_is_due(self, k: int) -> bool {
        let attempt = self.steps[k].event->attempt;
        let finish = self.steps[k].event->finish;
        &&& attempt < k
        &&& self.starts(attempt)
        &&& self.steps[k].event->Release_task == self.state(attempt).line()[0]
        &&& self.steps[attempt].at <= finish
        &&& finish + self.per_time <= self.steps[k].at
        &&& forall|other: int| #[trigger] self.releases(other, attempt) ==> other == k
    }

    /// Whether this can be the history of a limiter: the clock does not go backwards, a task is
    /// scheduled only where there is room for it, and a slot is released only when it is due.
    pub open spec fn valid(self) -> bool {
        &&& self.amount > 0
        &&& forall|i: int, j: int|
            0 <= i <= j < self.steps.len() ==> (#[trigger] self.steps[i]).at <= (
            #[trigger] self.steps[j]).at
        &&& forall|k: int|
            0 <= k < self.steps.len() && (#[trigger] self.steps[k]).event is Schedule
                ==> !self.state(k).full()
        &&& forall|k: int|
            0 <= k < self.steps.len() && (#[trigger] self.steps[k]).event is Release
                ==> self.release_is_due(k)
    }

    /// The attempts, each named by the step in which it started, that hold a slot after the first
    /// `k` steps.
    pub open spec fn held(self, k: int) -> Set<int> {
        Set::new(
            |attempt: int|
                attempt < k && self.starts(attempt) && forall|r: int|
                    r < k ==> !#[trigger] self.releases(r, attempt),
        )
    }

    /// Whether it is known of the attempt that started in step `attempt` that it finished before
    /// `t`.
    pub open spec fn finished_before(self, attempt: int, t: nat) -> bool {
        exists|r: int| #[trigger] self.releases(r, attempt) && self.steps[r].event->finish < t
    }

    /// The attempts that ran, if only for a moment, in the `per_time` that begins at `t`: those that
    /// started before its end and did not finish before its beginning.
    pub open spec fn running_within(self, t: nat) -> Set<int> {
        Set::new(
            |attempt: int|
                self.starts(attempt) && self.steps[attempt].at < t + self.per_time
                    && !self.finished_before(attempt, t),
        )
    }

    /// The state stays in order, and as many attempts hold a slot as it says. So at no time do more
    /// than `amount` attempts hold a slot.
    pub proof fn law_slots_are_accounted_for(self, k: int)
        requires
            self.valid(),
            0 <= k <= self.steps.len(),
        ensures
            self.state(k).wf(),
            self.state(k).amount == self.amount,
            self.state(k).per_time == self.per_time,
            self.held(k).finite(),
            self.held(k).len() == self.state(k).in_flight,
            self.held(k).len() <= self.amount,
        decreases k,
    {
        if k == 0 {
            assert(self.held(0) =~= Set::empty());
        } else {
            self.law_slots_are_accounted_for(k - 1);
            let step = self.steps[k - 1];
            let before = self.held(k - 1);
            let now = self.held(k);
            match step.event {
                Event::Schedule { task } => {
                    assert(now =~= before);
                },
                Event::Dispatch => {
                    assert forall|a: int| #[trigger] self.releases(k - 1, a) implies false by {}
                    if self.starts(k - 1) {
                        assert(now =~= before.insert(k - 1)) by {
                            assert forall|r: int| r < k implies !#[trigger] self.releases(
                                r,
                                k - 1,
                            ) by {
                                if self.releases(r, k - 1) {
                                    assert(self.release_is_due(r));
                                }
                            }
                        }
                    } else {
                        assert(now =~= before);
                    }
                },
                Event::Release { attempt, task, finish, result } => {
                    assert(self.release_is_due(k - 1));
                    assert(self.releases(k - 1, attempt));
                    assert(before.contains(attempt));
                    assert(now =~= before.remove(attempt));
                },
            }
        }
    }

    /// The number of steps, of the first `k`, that happen before `t`.
    spec fn steps_before(self, t: nat, k: int) -> int
        decreases k,
    {
        if k <= 0 {
            0
        } else if self.steps[k - 1].at < t {
            k
        } else {
            self.steps_before(t, k - 1)
        }
    }

    proof fn lemma_steps_before(self, t: nat, k: int)
        requires
            self.valid(),
            0 <= k <= self.steps.len(),
        ensures
            0 <= self.steps_before(t, k) <= k,
            forall|i: int|
                0 <= i < k ==> (i < self.steps_before(t, k) <==> (#[trigger] self.steps[i]).at < t),
        decreases k,
    {
        if k > 0 && self.steps[k - 1].at >= t {
            self.lemma_steps_before(t, k - 1);
        }
    }

    /// The rate limit: no more than `amount` attempts run within any `per_time`, however long each
    /// of them takes.
    pub proof fn law_rate_limit(self, t: nat)
        requires
            self.valid(),
        ensures
            self.running_within(t).finite(),
            self.running_within(t).len() <= self.amount,
    {
        let end = t + self.per_time;
        let n = self.steps.len() as int;
        let k = self.steps_before(end, n);
        self.lemma_steps_before(end, n);
        self.law_slots_are_accounted_for(k);
        assert forall|a: int| self.running_within(t).contains(a) implies self.held(k).contains(
            a,
        ) by {
            assert forall|r: int| r < k implies !#[trigger] self.releases(r, a) by {
                if self.releases(r, a) {
                    assert(self.release_is_due(r));
                }
            }
        }
        lemma_len_subset(self.running_within(t), self.held(k));
    }

    /// The number of attempts that start in the first `k` steps.
    pub open spec fn started(self, k: int) -> nat
        decreases k,
    {
        if k <= 0 {
            0
        } else if self.starts(k - 1) {
            self.started(k - 1) + 1
        } else {
            self.started(k - 1)
        }
    }

    /// The number of those attempts that were the first at their task.
    pub open spec fn fresh_started(self, k: int) -> nat
        decreases k,
    {
        if k <= 0 {
            0
        } else if self.starts(k - 1) && self.state(k - 1).retries.len() == 0 {
            self.fresh_started(k - 1) + 1
        } else {
            self.fresh_started(k - 1)
        }
    }

    /// The number of tasks that are scheduled in the first `k` steps.
    pub open spec fn tasks_scheduled(self, k: int) -> nat
        decreases k,
    {
        if k <= 0 {
            0
        } else if self.steps[k - 1].event is Schedule {
            self.tasks_scheduled(k - 1) + 1
        } else {
            self.tasks_scheduled(k - 1)
        }
    }

    /// The number of tasks that are done in the first `k` steps.
    pub open spec fn tasks_done(self, k: int) -> nat
        decreases k,
    {
        if k <= 0 {
            0
        } else if self.steps[k - 1].event is Release && self.steps[k - 1].event->result is Success {
            self.tasks_done(k - 1) + 1
        } else {
            self.tasks_done(k - 1)
        }
    }

    /// No task is lost: each one that was scheduled and is not done waits in line or holds a slot,
    /// and the estimate counts it.
    pub proof fn law_no_task_is_lost(self, k: int)
        requires
            self.valid(),
            0 <= k <= self.steps.len(),
        ensures
            self.tasks_scheduled(k) == self.tasks_done(k) + self.state(k).queued,
            self.state(k).queued == self.state(k).line().len() + self.state(k).in_flight,
        decreases k,
    {
        self.law_slots_are_accounted_for(k);
        if k > 0 {
            self.law_no_task_is_lost(k - 1);
            self.law_slots_are_accounted_for(k - 1);
            if self.steps[k - 1].event is Release {
                assert(self.release_is_due(k - 1));
                assert(self.held(k - 1).contains(self.steps[k - 1].event->attempt)) by {
                    assert(self.releases(k - 1, self.steps[k - 1].event->attempt));
                }
            }
        }
    }

    /// The number of attempts that come to [`TaskResult::TryAgain`] in the first `k` steps.
    pub open spec fn attempts_failed(self, k: int) -> nat
        decreases k,
    {
        if k <= 0 {
            0
        } else if self.steps[k - 1].event is Release && self.steps[k - 1].event->result is TryAgain {
            self.attempts_failed(k - 1) + 1
        } else {
            self.attempts_failed(k - 1)
        }
    }

    /// Each attempt that was started holds a slot, was the last at its task or was one that failed.
    /// So there are no more of them than tasks that were scheduled and attempts that failed.
    pub proof fn law_attempts_are_bounded(self, k: int)
        requires
            self.valid(),
            0 <= k <= self.steps.len(),
        ensures
            self.started(k) == self.held(k).len() + self.tasks_done(k) + self.attempts_failed(k),
            self.started(k) <= self.tasks_scheduled(k) + self.attempts_failed(k),
        decreases k,
    {
        self.law_slots_are_accounted_for(k);
        self.law_no_task_is_lost(k);
        if k > 0 {
            self.law_attempts_are_bounded(k - 1);
            self.law_slots_are_accounted_for(k - 1);
            if self.steps[k - 1].event is Release {
                assert(self.release_is_due(k - 1));
                assert(self.held(k - 1).contains(self.steps[k - 1].event->attempt)) by {
                    assert(self.releases(k - 1, self.steps[k - 1].event->attempt));
                }
            }
        }
    }

    /// No slot idles while work waits: where no task can start although fewer than `amount` attempts
    /// hold a slot, no task is in line.
    pub proof fn law_no_slot_idles(self, k: int)
        requires
            self.valid(),
            0 <= k <= self.steps.len(),
            !self.state(k).can_start(),
            self.held(k).len() < self.amount,
        ensures
            self.state(k).line().len() == 0,
    {
        self.law_slots_are_accounted_for(k);
    }

    /// Work does not get stuck: where no task can start and no attempt holds a slot any more, every
    /// task that was scheduled is done.
    pub proof fn law_all_tasks_are_done_in_the_end(self, k: int)
        requires
            self.valid(),
            0 <= k <= self.steps.len(),
            !self.state(k).can_start(),
            self.held(k).len() == 0,
        ensures
            self.state(k).line().len() == 0,
            self.tasks_done(k) == self.tasks_scheduled(k),
    {
        self.law_slots_are_accounted_for(k);
        self.law_no_slot_idles(k);
        self.law_no_task_is_lost(k);
    }

    /// An attempt that starts once the slot of another was released starts no sooner than
    /// `per_time` after the finish of that one. A task that is to be tried again is in line only
    /// after its slot was released, so its attempts are at least `per_time` apart.
    pub proof fn law_attempts_are_spaced(self, a: int, r: int, b: int)
        requires
            self.valid(),
            self.releases(r, a),
            r < b,
            self.starts(b),
        ensures
            self.steps[r].event->finish + self.per_time <= self.steps[b].at,
    {
        assert(self.release_is_due(r));
        assert(self.steps[r].at <= self.steps[b].at);
    }

    /// While a task is to be tried again, no other task has its first start. The task that starts
    /// is the one that has waited to be tried again for the longest time.
    pub proof fn law_retries_start_first(self, k: int)
        requires
            self.starts(k),
            self.state(k).retries.len() > 0,
        ensures
            self.state(k).line()[0] == self.state(k).retries[0],
            self.state(k + 1).retries == self.state(k).retries.drop_first(),
            self.state(k + 1).fresh == self.state(k).fresh,
    {
    }

    /// Tasks that are to be tried again are not overtaken: if `n` of them wait after `k` steps,
    /// then the next `n` starts are theirs, in their order, whatever else happens.
    pub proof fn law_retries_are_not_overtaken(self, k: int, m: int)
        requires
            self.valid(),
            0 <= k <= m <= self.steps.len(),
            self.started(m) - self.started(k) <= self.state(k).retries.len(),
        ensures
            self.started(k) <= self.started(m),
            self.state(k).retries.skip(self.started(m) - self.started(k)).is_prefix_of(
                self.state(m).retries,
            ),
            self.starts(m) && self.started(m) - self.started(k) < self.state(k).retries.len()
                ==> self.state(m).line()[0] == self.state(k).retries[self.started(m)
                - self.started(k)],
        decreases m - k,
    {
        let waiting = self.state(k).retries;
        if k == m {
            assert(waiting.skip(0) =~= waiting);
        } else {
            self.lemma_started_is_monotonic(k, m - 1);
            self.lemma_started_is_monotonic(m - 1, m);
            self.law_retries_are_not_overtaken(k, m - 1);
            let c = self.started(m - 1) - self.started(k);
            let before = self.state(m - 1);
            if self.starts(m - 1) {
                assert(waiting.skip(c + 1) =~= waiting.skip(c).drop_first());
                assert(waiting.skip(c)[0] == before.retries[0]);
                assert(waiting.skip(c + 1).is_prefix_of(self.state(m).retries));
            } else {
                assert(waiting.skip(c).is_prefix_of(self.state(m).retries));
            }
        }
        let c = self.started(m) - self.started(k);
        if c < waiting.len() {
            assert(waiting.skip(c)[0] == self.state(m).retries[0]);
        }
    }

    /// Tasks have their first start in the order in which they were scheduled.
    pub proof fn law_first_come_first_served(self, k: int, m: int)
        requires
            self.valid(),
            0 <= k <= m <= self.steps.len(),
            self.fresh_started(m) - self.fresh_started(k) <= self.state(k).fresh.len(),
        ensures
            self.fresh_started(k) <= self.fresh_started(m),
            self.state(k).fresh.skip(self.fresh_started(m) - self.fresh_started(k)).is_prefix_of(
                self.state(m).fresh,
            ),
            self.starts(m) && self.state(m).retries.len() == 0 && self.fresh_started(m)
                - self.fresh_started(k) < self.state(k).fresh.len() ==> self.state(m).line()[0]
                == self.state(k).fresh[self.fresh_started(m) - self.fresh_started(k)],
        decreases m - k,
    {
        let waiting = self.state(k).fresh;
        if k == m {
            assert(waiting.skip(0) =~= waiting);
        } else {
            self.lemma_fresh_started_is_monotonic(k, m - 1);
            self.lemma_fresh_started_is_monotonic(m - 1, m);
            self.law_first_come_first_served(k, m - 1);
            let c = self.fresh_started(m - 1) - self.fresh_started(k);
            let before = self.state(m - 1);
            if self.starts(m - 1) && before.retries.len() == 0 {
                assert(waiting.skip(c + 1) =~= waiting.skip(c).drop_first());
                assert(waiting.skip(c)[0] == before.fresh[0]);
                assert(waiting.skip(c + 1).is_prefix_of(self.state(m).fresh));
            } else {
                assert(waiting.skip(c).is_prefix_of(self.state(m).fresh));
            }
        }
        let c = self.fresh_started(m) - self.fresh_started(k);
        if c < waiting.len() {
            assert(waiting.skip(c)[0] == self.state(m).fresh[0]);
        }
    }

    proof fn lemma_started_is_monotonic(self, k: int, m: int)
        requires
            0 <= k <= m,
        ensures
            self.started(k) <= self.started(m),
        decreases m - k,
    {
        if k < m {
            self.lemma_started_is_monotonic(k, m - 1);
        }
    }

    proof fn lemma_fresh_started_is_monotonic(self, k: int, m: int)
        requires
            0 <= k <= m,
        ensures
            self.fresh_started(k) <= self.fresh_started(m),
        decreases m - k,
    {
        if k < m {
            self.lemma_fresh_started_is_monotonic(k, m - 1);
        }
    }

    /// The attempts among those started in the first `k` steps that are not among the first `c`.
    spec fn started_from(self, c: nat, k: int) -> Set<int> {
        Set::new(|a: int| a < k && self.starts(a) && self.started(a) >= c)
    }

    proof fn lemma_started_from(self, c: nat, k: int)
        requires
            0 <= k <= self.steps.len(),
        ensures
            self.started_from(c, k).finite(),
            self.started_from(c, k).len() == if self.started(k) >= c {
                self.started(k) - c
            } else {
                0
            },
        decreases k,
    {
        if k == 0 {
            assert(self.started_from(c, 0) =~= Set::empty());
        } else {
            self.lemma_started_from(c, k - 1);
            if self.starts(k - 1) && self.started(k - 1) >= c {
                assert(self.started_from(c, k) =~= self.started_from(c, k - 1).insert(k - 1));
            } else {
                assert(self.started_from(c, k) =~= self.started_from(c, k - 1));
            }
        }
    }

    /// The step of the start that has `c` others before it.
    proof fn lemma_start_exists(self, c: nat, k: int) -> (a: int)
        requires
            0 <= k <= self.steps.len(),
            c < self.started(k),
        ensures
            0 <= a < k,
            self.starts(a),
            self.started(a) == c,
        decreases k,
    {
        if self.starts(k - 1) && self.started(k - 1) == c {
            k - 1
        } else {
            self.lemma_start_exists(c, k - 1)
        }
    }

    /// Of two attempts between which at least `amount` others were started, the first among them
    /// included, the second starts no sooner than `per_time` after the first.
    pub proof fn law_starts_are_spaced(self, a: int, b: int)
        requires
            self.valid(),
            self.starts(a),
            self.starts(b),
            self.started(a) + self.amount <= self.started(b),
        ensures
            self.steps[a].at + self.per_time <= self.steps[b].at,
    {
        let t = self.steps[a].at;
        if self.steps[b].at < t + self.per_time {
            let c = self.started(a);
            let between = self.started_from(c, b + 1);
            self.lemma_started_from(c, b + 1);
            self.law_rate_limit(t);
            assert forall|x: int| between.contains(x) implies self.running_within(t).contains(
                x,
            ) by {
                if x < a {
                    self.lemma_started_is_monotonic(x + 1, a);
                }
                assert(self.steps[x].at <= self.steps[b].at);
                assert forall|r: int| #[trigger] self.releases(r, x) implies self.steps[r].event->finish
                    >= t by {
                    assert(self.release_is_due(r));
                }
            }
            lemma_len_subset(between, self.running_within(t));
        }
    }

    /// Whether the first `n` steps schedule a task each, all at the same time, no other is ever
    /// scheduled and none has to be tried again.
    pub open spec fn schedules_at_once(self, n: int) -> bool {
        &&& 0 < n <= self.steps.len()
        &&& forall|k: int|
            0 <= k < self.steps.len() ==> ((#[trigger] self.steps[k]).event is Schedule <==> k < n)
        &&& forall|k: int| 0 <= k < n ==> (#[trigger] self.steps[k]).at == self.steps[0].at
        &&& forall|k: int|
            0 <= k < self.steps.len() && (#[trigger] self.steps[k]).event is Release
                ==> self.steps[k].event->result is Success
    }

    /// Whether every task is instant and nothing is late: no time passes while a task can start,
    /// and a slot is released `per_time` after the start of the task in it.
    pub open spec fn instant(self) -> bool {
        &&& forall|k: int|
            0 < k < self.steps.len() && (#[trigger] self.state(k)).can_start() ==> self.steps[k].at
                == self.steps[k - 1].at
        &&& forall|k: int, a: int|
            0 <= k < self.steps.len() && #[trigger] self.held(k).contains(a) ==> self.steps[k].at
                <= self.steps[a].at + self.per_time
    }

    /// The tokens that are out of the bucket at `t`: those that a task took, by starting, less than
    /// `per_time` ago.
    pub open spec fn tokens_out(self, t: nat) -> Set<int> {
        Set::new(
            |a: int|
                self.starts(a) && self.steps[a].at <= t && t < self.steps[a].at + self.per_time,
        )
    }

    /// Where tasks are instant, the limiter is a token bucket, whenever the tasks are scheduled: of
    /// its `amount` tokens each is gone for `per_time` once a task has taken it, and no task waits
    /// while there is a token. `t` is any time from the last of the first `k` steps until the next
    /// one.
    pub proof fn law_token_bucket(self, k: int, t: nat)
        requires
            self.valid(),
            self.instant(),
            0 < k < self.steps.len(),
            self.steps[k - 1].at <= t < self.steps[k].at,
        ensures
            self.held(k) == self.tokens_out(t),
            self.tokens_out(t).len() <= self.amount,
            self.tokens_out(t).len() < self.amount ==> self.state(k).line().len() == 0,
    {
        self.law_slots_are_accounted_for(k);
        assert forall|a: int| #[trigger] self.held(k).contains(a) implies self.tokens_out(
            t,
        ).contains(a) by {
            assert(self.steps[a].at <= self.steps[k - 1].at);
        }
        assert forall|a: int| #[trigger] self.tokens_out(t).contains(a) implies self.held(
            k,
        ).contains(a) by {
            if a >= k {
                assert(self.steps[k].at <= self.steps[a].at);
            }
            assert forall|r: int| r < k implies !#[trigger] self.releases(r, a) by {
                if self.releases(r, a) {
                    assert(self.release_is_due(r));
                    assert(self.steps[r].at <= self.steps[k - 1].at);
                }
            }
        }
        assert(self.held(k) =~= self.tokens_out(t));
        if self.held(k).len() < self.amount {
            self.law_no_slot_idles(k);
        }
    }

    proof fn lemma_queues_of_scheduled_at_once(self, n: int, k: int)
        requires
            self.valid(),
            self.schedules_at_once(n),
            0 <= k <= self.steps.len(),
        ensures
            self.state(k).retries.len() == 0,
            k <= n ==> self.state(k).fresh.len() == k && self.started(k) == 0
                && self.state(k).queued == k,
            k >= n ==> self.state(k).fresh.len() + self.started(k) == n,
        decreases k,
    {
        if k > 0 {
            self.lemma_queues_of_scheduled_at_once(n, k - 1);
            self.law_slots_are_accounted_for(k - 1);
            if k - 1 < n {
                assert(self.steps[k - 1].event is Schedule);
            } else {
                assert(!(self.steps[k - 1].event is Schedule));
            }
        }
    }

    /// The estimate is right where tasks are instant, as it assumes: of tasks that are scheduled at
    /// once on a new limiter, each starts after just the time that was estimated when it was
    /// scheduled.
    pub proof fn law_eta_is_right_for_instant_tasks(self, n: int, k: int)
        requires
            self.valid(),
            self.schedules_at_once(n),
            self.instant(),
            self.starts(k),
        ensures
            self.started(k) < n,
            self.steps[k].at == self.steps[0].at + self.state(self.started(k) as int).eta(),
        decreases self.started(k),
    {
        let i = self.started(k);
        let p = self.per_time;
        let t0 = self.steps[0].at;
        let bound = t0 + p * (i / self.amount);
        self.lemma_queues_of_scheduled_at_once(n, k);
        self.law_slots_are_accounted_for(k);
        assert(k >= n);
        self.lemma_queues_of_scheduled_at_once(n, i as int);
        self.law_slots_are_accounted_for(i as int);
        assert(self.state(i as int).eta() == p * (i / self.amount));
        assert(p * (i / self.amount) >= 0) by (nonlinear_arith)
            requires
                p >= 0,
                i / self.amount >= 0,
        ;
        // The task starts no sooner.
        if i >= self.amount {
            let c = (i - self.amount) as nat;
            let a = self.lemma_start_exists(c, k);
            self.law_eta_is_right_for_instant_tasks(n, a);
            self.lemma_queues_of_scheduled_at_once(n, c as int);
            self.law_slots_are_accounted_for(c as int);
            self.law_starts_are_spaced(a, k);
            lemma_next_batch(p, i, self.amount);
        } else {
            assert(i / self.amount == 0) by (nonlinear_arith)
                requires
                    i < self.amount,
            ;
        }
        // Nor does it start later.
        if self.steps[k].at > bound {
            let len = self.steps.len() as int;
            let j = self.steps_before(bound + 1, len);
            self.lemma_steps_before(bound + 1, len);
            assert(j <= k);
            assert(n <= j) by {
                assert(self.steps[n - 1].at == t0);
            }
            self.lemma_started_is_monotonic(j, k);
            self.lemma_queues_of_scheduled_at_once(n, j);
            self.law_slots_are_accounted_for(j);
            assert(self.steps[j].at > bound);
            assert(self.steps[j - 1].at <= bound);
            assert(!self.state(j).can_start());
            assert(self.held(j).len() == self.amount);
            let c = if i >= self.amount {
                (i - self.amount + 1) as nat
            } else {
                0
            };
            let late = self.started_from(c, j);
            self.lemma_started_from(c, j);
            assert forall|a: int| self.held(j).contains(a) implies late.contains(a) by {
                if self.started(a) < c {
                    self.lemma_started_is_monotonic(a, k);
                    self.law_eta_is_right_for_instant_tasks(n, a);
                    let e = self.started(a);
                    self.lemma_queues_of_scheduled_at_once(n, e as int);
                    self.law_slots_are_accounted_for(e as int);
                    lemma_earlier_batch(p, e, i, self.amount);
                    assert(self.steps[j].at <= self.steps[a].at + p);
                }
            }
            lemma_len_subset(self.held(j), late);
        }
    }
}

/// The estimate grows by `per_time` from one batch to the next.
proof fn lemma_next_batch(per_time: nat, i: nat, amount: nat)
    requires
        0 < amount <= i,
    ensures
        per_time * (((i - amount) as nat) / amount) + per_time == per_time * (i / amount),
{
    assert(((i - amount) as nat) / amount + 1 == i / amount) by (nonlinear_arith)
        requires
            0 < amount <= i,
    ;
    let q = ((i - amount) as nat) / amount;
    assert(per_time * q + per_time == per_time * (q + 1)) by (nonlinear_arith);
}

/// The estimate for a task that is a batch ahead is lower by `per_time` at least.
proof fn lemma_earlier_batch(per_time: nat, e: nat, i: nat, amount: nat)
    requires
        0 < amount,
        e + amount <= i,
    ensures
        per_time * (e / amount) + per_time <= per_time * (i / amount),
{
    lemma_next_batch(per_time, i, amount);
    let c = (i - amount) as nat;
    assert(e / amount <= c / amount) by (nonlinear_arith)
        requires
            0 < amount,
            e <= c,
    ;
    let q = e / amount;
    let r = c / amount;
    assert(per_time * q <= per_time * r) by (nonlinear_arith)
        requires
            q <= r,
    ;
}

} // verus!
