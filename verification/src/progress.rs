//! What an asynchronous limiter comes to where its runtime goes on forever.
use vstd::prelude::*;
use vstd::set_lib::lemma_len_subset;

use crate::history::{History, Step};
use crate::time::saturating_sub;

verus! {

/// Everything that ever happens to a limiter of `amount` slots, in order and without end.
pub struct Endless {
    pub amount: nat,
    pub per_time: nat,
    pub step: spec_fn(int) -> Step,
}

/// The sum of what `bound` gives for the first `places` tasks.
spec fn sum_of_first(bound: spec_fn(nat) -> nat, places: nat) -> nat
    decreases places,
{
    if places == 0 {
        0
    } else {
        sum_of_first(bound, (places - 1) as nat) + bound((places - 1) as nat)
    }
}

impl Endless {
    /// The history that the first `n` steps make.
    pub open spec fn upto(self, n: int) -> History {
        History {
            amount: self.amount,
            per_time: self.per_time,
            steps: Seq::new(n as nat, |i: int| (self.step)(i)),
        }
    }

    /// Whether this can happen to a limiter.
    pub open spec fn valid(self) -> bool {
        forall|n: int| 0 <= n ==> #[trigger] self.upto(n).valid()
    }

    /// Whether an attempt starts in step `k`.
    pub open spec fn starts(self, k: int) -> bool {
        self.upto(k + 1).starts(k)
    }

    /// Whether a task has its first start in step `k`.
    pub open spec fn starts_fresh(self, k: int) -> bool {
        self.starts(k) && self.upto(k).state(k).retries.len() == 0
    }

    /// Whether the slot of the attempt that started in step `attempt` is released in step `k`.
    pub open spec fn releases(self, k: int, attempt: int) -> bool {
        self.upto(k + 1).releases(k, attempt)
    }

    /// Whether the runtime does its part: where a task can start, one starts sooner or later, and
    /// every attempt finishes, so that its slot is released sooner or later.
    pub open spec fn fair(self) -> bool {
        &&& forall|k: int|
            0 <= k && (#[trigger] self.upto(k)).state(k).can_start() ==> exists|m: int|
                k <= m && #[trigger] self.starts(m)
        &&& forall|k: int, attempt: int|
            0 <= k && #[trigger] self.upto(k).held(k).contains(attempt) ==> exists|r: int|
                k <= r && #[trigger] self.releases(r, attempt)
    }

    /// Whether each task fails only finitely often: no more often than `bound` gives for its place
    /// in the order in which the tasks are scheduled.
    pub open spec fn fails_finitely(self, bound: spec_fn(nat) -> nat) -> bool {
        forall|place: nat, n: int|
            0 <= n ==> #[trigger] self.upto(n).failures_of(place, n) <= bound(place)
    }

    /// What has happened in the first `k` steps does not depend on what comes later.
    proof fn lemma_upto(self, k: int, n: int)
        requires
            self.valid(),
            0 <= k <= n,
        ensures
            self.upto(n).state(k) == self.upto(k).state(k),
            self.upto(n).started(k) == self.upto(k).started(k),
            self.upto(n).fresh_started(k) == self.upto(k).fresh_started(k),
            self.upto(n).tasks_scheduled(k) == self.upto(k).tasks_scheduled(k),
            self.upto(n).retry_places(k) == self.upto(k).retry_places(k),
            self.upto(n).place(k) == self.upto(k).place(k),
            forall|i: int| 0 <= i < k ==> #[trigger] self.upto(n).starts(i) == self.starts(i),
            forall|r: int, a: int|
                0 <= r < k ==> #[trigger] self.upto(n).releases(r, a) == self.releases(r, a),
        decreases k,
    {
        if k > 0 {
            self.lemma_upto(k - 1, n);
            self.lemma_upto(k - 1, k);
            let event = (self.step)(k - 1).event;
            assert(self.upto(n).steps[k - 1].event == event);
            assert(self.upto(k).steps[k - 1].event == event);
            if event is Release {
                assert(self.upto(k).valid());
                assert(self.upto(k).release_is_due(k - 1));
                self.lemma_upto(event->attempt, n);
                self.lemma_upto(event->attempt, k);
            }
        }
    }

    /// The counts of a longer history are no smaller.
    proof fn lemma_counts_grow(self, place: nat, k: int, n: int)
        requires
            self.valid(),
            0 <= k <= n,
        ensures
            self.upto(k).started(k) <= self.upto(n).started(n),
            self.upto(k).fresh_started(k) <= self.upto(n).fresh_started(n),
            self.upto(k).tasks_scheduled(k) <= self.upto(n).tasks_scheduled(n),
            self.upto(k).failures_of(place, k) <= self.upto(n).failures_of(place, n),
        decreases n - k,
    {
        if k < n {
            self.lemma_counts_grow(place, k, n - 1);
            self.lemma_upto(n - 1, n);
            self.lemma_failures_upto(place, n - 1, n);
        }
    }

    proof fn lemma_failures_upto(self, place: nat, k: int, n: int)
        requires
            self.valid(),
            0 <= k <= n,
        ensures
            self.upto(n).failures_of(place, k) == self.upto(k).failures_of(place, k),
        decreases k,
    {
        if k > 0 {
            self.lemma_failures_upto(place, k - 1, n);
            self.lemma_failures_upto(place, k - 1, k);
            let event = (self.step)(k - 1).event;
            assert(self.upto(n).steps[k - 1].event == event);
            assert(self.upto(k).steps[k - 1].event == event);
            if event is Release {
                assert(self.upto(k).valid());
                assert(self.upto(k).release_is_due(k - 1));
                self.lemma_upto(event->attempt, n);
                self.lemma_upto(event->attempt, k);
            }
        }
    }

    /// A step from which on nothing starts, where there is a bound on the number of starts.
    proof fn lemma_last_start(self, bound: nat, n: int) -> (last: int)
        requires
            self.valid(),
            0 <= n,
            forall|m: int| n <= m ==> (#[trigger] self.upto(m)).started(m) <= bound,
        ensures
            n <= last,
            forall|m: int| last <= m ==> !#[trigger] self.starts(m),
        decreases bound - self.upto(n).started(n),
    {
        assert(self.upto(n).started(n) <= bound);
        if exists|m: int| n <= m && #[trigger] self.starts(m) {
            let m = choose|m: int| n <= m && #[trigger] self.starts(m);
            self.lemma_counts_grow(0, n, m);
            self.lemma_upto(m, m + 1);
            assert(self.upto(m + 1).started(m + 1) <= bound);
            self.lemma_last_start(bound, m + 1)
        } else {
            n
        }
    }

    /// Where nothing starts from step `n` on, the attempts that hold a slot later are among those
    /// that hold one then, and they have not been released meanwhile.
    proof fn lemma_held_shrinks(self, n: int, k: int, a: int)
        requires
            self.valid(),
            0 <= n <= k,
            forall|m: int| n <= m ==> !#[trigger] self.starts(m),
            self.upto(k).held(k).contains(a),
        ensures
            self.upto(n).held(n).contains(a),
            forall|r: int| r < k ==> !#[trigger] self.releases(r, a),
    {
        self.lemma_upto(k, k);
        self.lemma_upto(n, n);
        assert(self.upto(k).starts(a) == self.starts(a));
        assert(a < n);
        assert(self.upto(n).starts(a) == self.starts(a));
        assert forall|r: int| r < k implies !#[trigger] self.releases(r, a) by {
            if 0 <= r {
                assert(!self.upto(k).releases(r, a));
            }
        }
        assert forall|r: int| r < n implies !#[trigger] self.upto(n).releases(r, a) by {
            assert(!self.releases(r, a));
        }
    }

    /// A step after which no attempt holds a slot, where nothing starts any more.
    proof fn lemma_last_release(self, n: int) -> (last: int)
        requires
            self.valid(),
            self.fair(),
            0 <= n,
            forall|m: int| n <= m ==> !#[trigger] self.starts(m),
        ensures
            n <= last,
            self.upto(last).held(last).len() == 0,
        decreases self.upto(n).held(n).len(),
    {
        let held = self.upto(n).held(n);
        self.upto(n).law_slots_are_accounted_for(n);
        if held.len() == 0 {
            n
        } else {
            let a = held.choose();
            assert(held.contains(a));
            let r = choose|r: int| n <= r && #[trigger] self.releases(r, a);
            let later = self.upto(r + 1).held(r + 1);
            assert forall|b: int| later.contains(b) implies held.remove(a).contains(b) by {
                self.lemma_held_shrinks(n, r + 1, b);
                if b == a {
                    assert(!self.releases(r, a));
                }
            }
            lemma_len_subset(later, held.remove(a));
            self.lemma_last_release(r + 1)
        }
    }

    /// Where no task has its first start from step `n` on, the number of first starts stays.
    proof fn lemma_no_fresh_start(self, n: int, m: int)
        requires
            self.valid(),
            0 <= n <= m,
            forall|k: int| n <= k ==> !#[trigger] self.starts_fresh(k),
        ensures
            self.upto(m).fresh_started(m) == self.upto(n).fresh_started(n),
        decreases m - n,
    {
        if n < m {
            self.lemma_no_fresh_start(n, m - 1);
            self.lemma_upto(m - 1, m);
            assert(!self.starts_fresh(m - 1));
        }
    }

    proof fn lemma_failures_bounded(self, bound: spec_fn(nat) -> nat, places: nat, n: int)
        requires
            self.fails_finitely(bound),
            0 <= n,
        ensures
            self.upto(n).failures_of_first(places, n) <= sum_of_first(bound, places),
        decreases places,
    {
        if places > 0 {
            self.lemma_failures_bounded(bound, (places - 1) as nat, n);
            assert(self.upto(n).failures_of((places - 1) as nat, n) <= bound((places - 1) as nat));
        }
    }

    /// Where a task waits that has not been tried yet, some such task has its first start sooner or
    /// later: the tasks that are to be tried again ahead of it are few, and each of them fails only
    /// so often.
    proof fn lemma_fresh_start_comes(self, bound: spec_fn(nat) -> nat, n: int) -> (m: int)
        requires
            self.valid(),
            self.fair(),
            self.fails_finitely(bound),
            0 <= n,
            self.upto(n).state(n).fresh.len() > 0,
        ensures
            n <= m,
            self.starts_fresh(m),
    {
        if forall|k: int| n <= k ==> !#[trigger] self.starts_fresh(k) {
            let places = self.upto(n).fresh_started(n);
            let cap = places + sum_of_first(bound, places);
            assert forall|m: int| n <= m implies (#[trigger] self.upto(m)).started(m) <= cap by {
                self.lemma_no_fresh_start(n, m);
                self.upto(m).law_attempts_are_bounded(m);
                self.upto(m).law_no_task_is_lost(m);
                self.upto(m).law_slots_are_accounted_for(m);
                self.upto(m).law_places_name_tasks(m);
                self.upto(m).lemma_failures_are_of_started_tasks(places, m);
                self.lemma_failures_bounded(bound, places, m);
            }
            let last = self.lemma_last_start(cap, n);
            let end = self.lemma_last_release(last);
            assert(!self.upto(end).state(end).can_start());
            self.upto(end).law_all_tasks_are_done_in_the_end(end);
            self.lemma_no_fresh_start(n, end);
            self.lemma_counts_grow(0, n, end);
            self.upto(n).law_places_name_tasks(n);
            self.upto(end).law_places_name_tasks(end);
            assert(false);
        }
        choose|m: int| n <= m && #[trigger] self.starts_fresh(m)
    }

    /// Every task has its first start sooner or later.
    proof fn lemma_first_start_comes(self, bound: spec_fn(nat) -> nat, place: nat, n: int) -> (m: int)
        requires
            self.valid(),
            self.fair(),
            self.fails_finitely(bound),
            0 <= n,
            place < self.upto(n).tasks_scheduled(n),
        ensures
            n <= m,
            place < self.upto(m).fresh_started(m),
        decreases saturating_sub(place + 1, self.upto(n).fresh_started(n)),
    {
        if place < self.upto(n).fresh_started(n) {
            n
        } else {
            self.upto(n).law_places_name_tasks(n);
            let m = self.lemma_fresh_start_comes(bound, n);
            self.lemma_counts_grow(0, n, m);
            self.lemma_counts_grow(0, n, m + 1);
            self.lemma_upto(m, m + 1);
            self.lemma_first_start_comes(bound, place, m + 1)
        }
    }

    /// The first start from step `k` on, given that there is one in step `m`.
    proof fn lemma_earliest_start(self, k: int, m: int) -> (first: int)
        requires
            k <= m,
            self.starts(m),
        ensures
            k <= first <= m,
            self.starts(first),
            forall|i: int| k <= i < first ==> !#[trigger] self.starts(i),
        decreases m - k,
    {
        if exists|i: int| k <= i < m && #[trigger] self.starts(i) {
            let i = choose|i: int| k <= i < m && #[trigger] self.starts(i);
            self.lemma_earliest_start(k, i)
        } else {
            m
        }
    }

    /// Where nothing starts, the tasks that are to be tried again keep their places in line.
    proof fn lemma_line_keeps(self, k: int, m: int)
        requires
            self.valid(),
            0 <= k <= m,
            forall|i: int| k <= i < m ==> !#[trigger] self.starts(i),
        ensures
            self.upto(k).retry_places(k).is_prefix_of(self.upto(m).retry_places(m)),
        decreases m - k,
    {
        if k < m {
            self.lemma_line_keeps(k, m - 1);
            self.lemma_upto(m - 1, m);
            assert(!self.starts(m - 1));
        }
    }

    /// Where a task is to be tried again, some task starts sooner or later.
    proof fn lemma_start_comes(self, k: int) -> (m: int)
        requires
            self.valid(),
            self.fair(),
            0 <= k,
            self.upto(k).state(k).retries.len() > 0,
        ensures
            k <= m,
            self.starts(m),
    {
        let state = self.upto(k).state(k);
        self.upto(k).law_slots_are_accounted_for(k);
        if !state.can_start() {
            let held = self.upto(k).held(k);
            let a = held.choose();
            assert(held.contains(a));
            let r = choose|r: int| k <= r && #[trigger] self.releases(r, a);
            if !exists|i: int| k <= i && #[trigger] self.starts(i) {
                self.lemma_line_keeps(k, r);
                self.lemma_line_keeps(k, r + 1);
                self.lemma_upto(r, r + 1);
                self.upto(k).law_places_name_tasks(k);
                self.upto(r + 1).law_places_name_tasks(r + 1);
                self.upto(r + 1).law_slots_are_accounted_for(r + 1);
                assert(self.upto(r + 1).state(r + 1).free > 0);
                assert(self.upto(r + 1).state(r + 1).can_start());
                assert(false);
            }
        }
        choose|m: int| k <= m && #[trigger] self.starts(m)
    }

    /// A task that is to be tried again starts sooner or later.
    proof fn lemma_retry_starts(self, k: int, i: int) -> (m: int)
        requires
            self.valid(),
            self.fair(),
            0 <= k,
            0 <= i < self.upto(k).retry_places(k).len(),
        ensures
            k <= m,
            self.starts(m),
            self.upto(m).place(m) == self.upto(k).retry_places(k)[i],
        decreases i,
    {
        self.upto(k).law_places_name_tasks(k);
        let some = self.lemma_start_comes(k);
        let m = self.lemma_earliest_start(k, some);
        self.lemma_line_keeps(k, m);
        self.upto(m).law_places_name_tasks(m);
        if i == 0 {
            m
        } else {
            self.lemma_upto(m, m + 1);
            assert(self.upto(m + 1).retry_places(m + 1)[i - 1] == self.upto(m).retry_places(m)[i]);
            self.lemma_retry_starts(m + 1, i - 1)
        }
    }

    /// A task that has been started is done sooner or later.
    proof fn lemma_done_comes(self, bound: spec_fn(nat) -> nat, place: nat, k: int) -> (n: int)
        requires
            self.valid(),
            self.fair(),
            self.fails_finitely(bound),
            0 <= k,
            place < self.upto(k).fresh_started(k),
        ensures
            k <= n,
            self.upto(n).is_done(place, n),
        decreases bound(place) - self.upto(k).failures_of(place, k),
    {
        let history = self.upto(k);
        history.law_started_tasks_are_somewhere(place, k);
        if history.is_done(place, k) {
            k
        } else {
            // The attempt at the task that holds a slot, or will, and a step after which it does.
            let (a, from) = if history.retry_places(k).contains(place) {
                let i = choose|i: int|
                    0 <= i < history.retry_places(k).len() && history.retry_places(k)[i] == place;
                let m = self.lemma_retry_starts(k, i);
                (m, m + 1)
            } else {
                let a = choose|a: int| #[trigger]
                    history.held(k).contains(a) && history.place(a) == place;
                self.lemma_upto(a, k);
                (a, k)
            };
            assert(self.upto(from).held(from).contains(a)) by {
                if from == a + 1 {
                    let started = self.upto(from);
                    assert(started.valid());
                    assert forall|r: int| r < from implies !#[trigger] started.releases(r, a) by {
                        if started.releases(r, a) {
                            assert(started.release_is_due(r));
                        }
                    }
                }
            }
            let r = choose|r: int| from <= r && #[trigger] self.releases(r, a);
            let after = self.upto(r + 1);
            self.lemma_upto(a, r + 1);
            self.lemma_counts_grow(place, k, r);
            self.lemma_counts_grow(place, k, r + 1);
            self.lemma_failures_upto(place, r, r + 1);
            if after.steps[r].event->result is Success {
                assert(after.completes(r, place));
                r + 1
            } else {
                assert(after.fails(r, place));
                assert(after.failures_of(place, r + 1) <= bound(place));
                self.lemma_done_comes(bound, place, r + 1)
            }
        }
    }

    /// Every task is started and done in the end, even on a limiter that keeps getting tasks,
    /// provided that the runtime does its part and that each task fails only finitely often.
    pub proof fn law_every_task_is_done(self, bound: spec_fn(nat) -> nat, place: nat, k: int)
        requires
            self.valid(),
            self.fair(),
            self.fails_finitely(bound),
            0 <= k,
            place < self.upto(k).tasks_scheduled(k),
        ensures
            exists|n: int|
                k <= n && place < (#[trigger] self.upto(n)).fresh_started(n) && self.upto(
                    n,
                ).is_done(place, n),
    {
        let started = self.lemma_first_start_comes(bound, place, k);
        let n = self.lemma_done_comes(bound, place, started);
        self.lemma_counts_grow(place, started, n);
        assert(self.upto(n).is_done(place, n));
    }
}

} // verus!
