//! What a blocking limiter remembers, and what follows for every sequence of tasks it lets run.
use vstd::prelude::*;
use vstd::set_lib::{lemma_int_range, lemma_len_subset, set_int_range};

use crate::time::saturating_sub;
use crate::TaskResult;

verus! {

/// The finish times that a limiter remembers, oldest first, and the time for which a slot stays
/// closed after the task that held it has finished. All times are in nanoseconds.
///
/// A slot that no task has held yet is open. There are `unused` of them, and in place of a finish
/// time each of them has the time at which the limiter was created.
pub struct Window {
    pub finish_times: Seq<nat>,
    pub unused: nat,
    pub per_time: nat,
}

impl Window {
    /// A limiter of `amount` slots that was created at `at`.
    pub open spec fn opened(amount: nat, per_time: nat, at: nat) -> Window {
        Window { finish_times: Seq::new(amount, |i: int| at), unused: amount, per_time }
    }

    /// Each slot that no task has held yet is among those that are remembered.
    pub open spec fn wf(self) -> bool {
        self.unused <= self.finish_times.len()
    }

    /// No finish time is later than one that stands behind it.
    pub open spec fn sorted(self) -> bool {
        forall|i: int, j: int|
            0 <= i <= j < self.finish_times.len() ==> self.finish_times[i] <= self.finish_times[j]
    }

    /// The time from which the next task may start: any time where a slot is unused.
    pub open spec fn next_start(self) -> nat {
        if self.unused > 0 {
            0
        } else {
            self.finish_times[0] + self.per_time
        }
    }

    /// How long a task that is scheduled at `now` has to wait for its slot.
    pub open spec fn wait(self, now: nat) -> nat {
        saturating_sub(self.next_start(), now)
    }

    /// The next task has taken an unused slot or, where there is none, that of the oldest finish
    /// time.
    pub open spec fn taken(self) -> Window {
        Window {
            finish_times: self.finish_times.drop_first(),
            unused: saturating_sub(self.unused, 1),
            per_time: self.per_time,
        }
    }

    /// The task in a slot that was taken has finished at `at`.
    pub open spec fn finished(self, at: nat) -> Window {
        Window { finish_times: self.finish_times.push(at), ..self }
    }
}

/// The next start of a window in which no slot is unused lies `per_time` after the oldest finish,
/// and where a slot is unused every time will do.
pub proof fn law_next_start(window: Window)
    ensures
        window.unused == 0 ==> window.next_start() == window.finish_times[0] + window.per_time,
        window.unused > 0 ==> window.next_start() == 0,
{
}

/// Who waits as told is never too early, and never later than needed: a wait ends at the time at
/// which `per_time` has passed since the oldest finish, and there is none if that has been or if a
/// slot is unused.
pub proof fn law_wait_is_just_long_enough(window: Window, now: nat)
    ensures
        window.unused > 0 ==> window.wait(now) == 0,
        window.unused == 0 ==> {
            let opens_at = window.finish_times[0] + window.per_time;
            &&& opens_at <= now + window.wait(now)
            &&& window.wait(now) > 0 ==> now + window.wait(now) == opens_at
        },
        window.next_start() <= now + window.wait(now),
{
}

/// Of two tasks that are scheduled for the same slot at different times, the later one waits less by
/// the time that lies between them, or not at all if more time lies between them than the first has
/// to wait.
pub proof fn law_wait_shrinks_as_time_passes(window: Window, now: nat, later: nat)
    requires
        now <= later,
    ensures
        later <= now + window.wait(now) ==> window.wait(now) == window.wait(later) + (later - now),
        later >= now + window.wait(now) ==> window.wait(later) == 0,
{
}

/// A new limiter has `amount` slots, none of which has been held, and each of which has the time of
/// its creation in place of a finish time.
pub proof fn law_opened(amount: nat, per_time: nat, at: nat)
    ensures
        ({
            let window = Window::opened(amount, per_time, at);
            &&& window.finish_times.len() == amount
            &&& forall|i: int| 0 <= i < amount ==> #[trigger] window.finish_times[i] == at
            &&& window.unused == amount
            &&& window.per_time == per_time
        }),
{
}

/// To take a slot and to give it back takes out the oldest finish time and adds the latest, in this
/// order. The others move up by one place, there are as many as before, and there is one unused slot
/// less, if there was one.
pub proof fn law_slot_is_taken_and_given_back(window: Window, at: nat)
    requires
        window.finish_times.len() > 0,
    ensures
        ({
            let taken = window.taken();
            let finished = taken.finished(at);
            let n = window.finish_times.len() as int;
            &&& taken.finish_times.len() + 1 == n
            &&& forall|i: int|
                0 <= i < n - 1 ==> #[trigger] taken.finish_times[i] == window.finish_times[i + 1]
            &&& window.unused > 0 ==> taken.unused + 1 == window.unused
            &&& window.unused == 0 ==> taken.unused == 0
            &&& taken.per_time == window.per_time
            &&& finished.finish_times.len() == n
            &&& forall|i: int|
                0 <= i < n - 1 ==> #[trigger] finished.finish_times[i] == taken.finish_times[i]
            &&& finished.finish_times[n - 1] == at
            &&& finished.unused == taken.unused
            &&& finished.per_time == window.per_time
        }),
{
}

/// A slot that is given back without one having been taken is one more: whatever the window, its
/// finish times stay, and the latest stands behind them.
pub proof fn law_finish_goes_to_the_end(window: Window, at: nat)
    ensures
        window.finished(at).finish_times.len() == window.finish_times.len() + 1,
        window.finished(at).finish_times.last() == at,
        window.finished(at).finish_times.drop_last() == window.finish_times,
        window.finished(at).unused == window.unused,
        window.finished(at).per_time == window.per_time,
{
    assert(window.finished(at).finish_times.drop_last() =~= window.finish_times);
}

/// A task that was scheduled at `now` finishes no sooner than its wait is over and its slot opens, if
/// the wait was over at a time `end` that is no later than its finish.
pub proof fn law_finish_is_past_the_next_start(window: Window, now: nat, end: nat, finish: nat)
    requires
        now + window.wait(now) <= end,
        end <= finish,
    ensures
        window.unused == 0 ==> window.finish_times[0] + window.per_time <= finish,
        now + window.wait(now) <= finish,
        window.next_start() <= finish,
{
}

/// One task that a limiter let run, or one attempt at it: when it was scheduled, when it started
/// and when it finished.
pub struct Run {
    pub scheduled: nat,
    pub start: nat,
    pub finish: nat,
}

/// The times at which the tasks finished.
pub open spec fn finishes(runs: Seq<Run>) -> Seq<nat> {
    runs.map_values(|run: Run| run.finish)
}

/// What a limiter remembers once `runs` have gone through it, one after the other.
pub open spec fn after(window: Window, runs: Seq<Run>) -> Window
    decreases runs.len(),
{
    if runs.len() == 0 {
        window
    } else {
        after(window, runs.drop_last()).taken().finished(runs.last().finish)
    }
}

/// The clock never went backwards: a task finishes no sooner than it starts, starts no sooner than
/// it is scheduled, and is scheduled no sooner than the tasks before it have finished.
pub open spec fn in_order(runs: Seq<Run>) -> bool {
    &&& forall|i: int|
        0 <= i < runs.len() ==> (#[trigger] runs[i]).scheduled <= runs[i].start <= runs[i].finish
    &&& forall|i: int, j: int|
        0 <= i < j < runs.len() ==> (#[trigger] runs[i]).finish <= (#[trigger] runs[j]).scheduled
}

/// Each of `runs` waited for as long as the limiter told it to, or longer. What it was told is the
/// time that [`RateLimiter::schedule_task`](crate::blocking::RateLimiter::schedule_task) hands to
/// its pause.
pub open spec fn waited(window: Window, runs: Seq<Run>) -> bool {
    forall|k: int|
        0 <= k < runs.len() ==> (#[trigger] runs[k]).start >= runs[k].scheduled + after(
            window,
            runs.take(k),
        ).wait(runs[k].scheduled)
}

/// The tasks that ran, if only for a moment, in the `per_time` that begins at `t`: those that
/// started before its end and did not finish before its beginning.
pub open spec fn running_within(runs: Seq<Run>, per_time: nat, t: nat) -> Set<int> {
    Set::new(|i: int| 0 <= i < runs.len() && runs[i].start < t + per_time && t <= runs[i].finish)
}

/// The tokens that are out of the bucket at `t`, where the `i`-th was taken at `taken[i]` and
/// comes back `per_time` later.
pub open spec fn tokens_out(taken: Seq<nat>, per_time: nat, t: nat) -> Set<int> {
    Set::new(|i: int| 0 <= i < taken.len() && t < taken[i] + per_time)
}

/// The state and the answer that `attempts` at one task lead to: an attempt that is to be repeated
/// leads to the next one, and the first that succeeds answers with its finish time.
pub open spec fn retried(window: Window, attempts: Seq<(Run, TaskResult)>) -> (Window, Option<nat>)
    decreases attempts.len(),
{
    if attempts.len() == 0 {
        (window, None)
    } else {
        let (before, answer) = retried(window, attempts.drop_last());
        let (run, result) = attempts.last();
        if answer is Some {
            (before, answer)
        } else {
            (
                before.taken().finished(run.finish),
                match result {
                    TaskResult::Success => Some(run.finish),
                    TaskResult::TryAgain => None,
                },
            )
        }
    }
}

/// A limiter remembers the latest finish times, as many as it has slots, in the order in which the
/// tasks finished, and each task uses up one of the unused slots.
pub proof fn law_remembers_latest(window: Window, runs: Seq<Run>)
    requires
        window.finish_times.len() > 0,
    ensures
        after(window, runs).finish_times == (window.finish_times + finishes(runs)).skip(
            runs.len() as int,
        ),
        after(window, runs).finish_times.len() == window.finish_times.len(),
        after(window, runs).unused == saturating_sub(window.unused, runs.len()),
        after(window, runs).per_time == window.per_time,
    decreases runs.len(),
{
    let all = window.finish_times + finishes(runs);
    if runs.len() == 0 {
        assert(all.skip(0) =~= window.finish_times);
    } else {
        let fewer = runs.drop_last();
        law_remembers_latest(window, fewer);
        assert(after(window, runs).finish_times =~= all.skip(runs.len() as int));
    }
}

/// Tasks that run one after the other finish one after the other.
proof fn lemma_finishes_sorted(runs: Seq<Run>)
    requires
        in_order(runs),
    ensures
        forall|i: int, j: int|
            0 <= i <= j < runs.len() ==> #[trigger] finishes(runs)[i] <= #[trigger] finishes(
                runs,
            )[j],
{
    assert forall|i: int, j: int| 0 <= i <= j < runs.len() implies #[trigger] finishes(runs)[i]
        <= #[trigger] finishes(runs)[j] by {
        if i < j {
            assert(runs[i].finish <= runs[j].scheduled);
        }
    }
}

/// As long as the clock does not go backwards, the finish times stay sorted, the oldest first.
pub proof fn law_stays_sorted(window: Window, runs: Seq<Run>)
    requires
        window.finish_times.len() > 0,
        window.sorted(),
        in_order(runs),
        runs.len() > 0 ==> window.finish_times.last() <= runs[0].scheduled,
    ensures
        after(window, runs).sorted(),
{
    law_remembers_latest(window, runs);
    lemma_finishes_sorted(runs);
    let all = window.finish_times + finishes(runs);
    let n = window.finish_times.len() as int;
    let k = runs.len() as int;
    let kept = after(window, runs).finish_times;
    assert forall|i: int, j: int| 0 <= i <= j < kept.len() implies kept[i] <= kept[j] by {
        if j + k >= n && i + k < n {
            assert(window.finish_times[i + k] <= window.finish_times[n - 1]);
            assert(runs[0].scheduled <= runs[0].finish);
            assert(finishes(runs)[0] <= finishes(runs)[j + k - n]);
        } else if i + k >= n {
            assert(finishes(runs)[i + k - n] <= finishes(runs)[j + k - n]);
        }
    }
}

/// A slot that no task has held yet is open at all times.
pub proof fn law_unused_slots_are_open(window: Window, runs: Seq<Run>, now: nat)
    requires
        after(window, runs).unused > 0,
    ensures
        after(window, runs).wait(now) == 0,
{
}

/// On a new limiter the first `amount` tasks run immediately.
pub proof fn law_first_tasks_run_immediately(
    amount: nat,
    per_time: nat,
    at: nat,
    runs: Seq<Run>,
    now: nat,
)
    requires
        runs.len() < amount,
    ensures
        after(Window::opened(amount, per_time, at), runs).wait(now) == 0,
{
    law_remembers_latest(Window::opened(amount, per_time, at), runs);
}

/// A task starts no sooner than `per_time` after the finish of the task that is `amount` places, or
/// more, before it, where `amount` is the number of slots.
pub proof fn law_slot_reopens_after_finish(window: Window, runs: Seq<Run>, i: int, j: int)
    requires
        window.finish_times.len() > 0,
        window.wf(),
        in_order(runs),
        waited(window, runs),
        0 <= i,
        i + window.finish_times.len() <= j < runs.len(),
    ensures
        runs[i].finish + window.per_time <= runs[j].start,
{
    let n = window.finish_times.len() as int;
    let before = runs.take(j);
    law_remembers_latest(window, before);
    let all = window.finish_times + finishes(before);
    assert(after(window, before).finish_times[0] == all[j]);
    assert(all[j] == runs[j - n].finish);
    if i < j - n {
        assert(runs[i].finish <= runs[j - n].scheduled);
    }
    assert(runs[j].start >= runs[j].scheduled + after(window, before).wait(runs[j].scheduled));
}

/// The least index from `lo` on at which `p` holds.
proof fn least_index(p: spec_fn(int) -> bool, lo: int, found: int) -> (least: int)
    requires
        lo <= found,
        p(found),
    ensures
        lo <= least <= found,
        p(least),
        forall|i: int| lo <= i < least ==> !#[trigger] p(i),
    decreases found - lo,
{
    if p(lo) {
        lo
    } else {
        least_index(p, lo + 1, found)
    }
}

/// The rate limit: no more than `amount` tasks run within any `per_time`, however long each of them
/// takes, where `amount` is the number of slots. An attempt that is to be repeated counts as a
/// task.
pub proof fn law_rate_limit(window: Window, runs: Seq<Run>, t: nat)
    requires
        window.finish_times.len() > 0,
        window.wf(),
        in_order(runs),
        waited(window, runs),
    ensures
        running_within(runs, window.per_time, t).finite(),
        running_within(runs, window.per_time, t).len() <= window.finish_times.len(),
{
    let n = window.finish_times.len() as int;
    let running = running_within(runs, window.per_time, t);
    let first = if exists|i: int| running.contains(i) {
        let some = choose|i: int| running.contains(i);
        least_index(|i: int| running.contains(i), 0, some)
    } else {
        0
    };
    let range = set_int_range(first, first + n);
    lemma_int_range(first, first + n);
    assert forall|j: int| running.contains(j) implies range.contains(j) by {
        let p = |i: int| running.contains(i);
        assert(p(first));
        if j < first {
            assert(!p(j));
        }
        if j >= first + n {
            law_slot_reopens_after_finish(window, runs, first, j);
        }
    }
    lemma_len_subset(running, range);
}

/// No task waits longer than it has to: the time at which it may start is the first, from the time
/// on at which it is scheduled, at which a slot is unused or `per_time` has passed for one of the
/// remembered finish times.
pub proof fn law_starts_as_soon_as_a_slot_opens(window: Window, now: nat, t: nat)
    requires
        window.finish_times.len() > 0,
        window.sorted(),
        now <= t,
    ensures
        now + window.wait(now) <= t <==> window.unused > 0 || exists|i: int|
            0 <= i < window.finish_times.len() && #[trigger] window.finish_times[i]
                + window.per_time <= t,
{
    if window.unused == 0 && now + window.wait(now) <= t {
        assert(window.finish_times[0] + window.per_time <= t);
    }
}

/// Where tasks take no time at all, a limiter is a token bucket. A new one is full: it holds
/// `amount` tokens. Each of them is gone for `per_time` once a task has taken it, and a task starts
/// as soon as there is a token.
pub proof fn law_token_bucket(
    amount: nat,
    per_time: nat,
    at: nat,
    runs: Seq<Run>,
    now: nat,
    t: nat,
)
    requires
        amount > 0,
        in_order(runs),
        forall|i: int| 0 <= i < runs.len() ==> (#[trigger] runs[i]).start == runs[i].finish,
        now <= t,
    ensures
        ({
            let window = after(Window::opened(amount, per_time, at), runs);
            let out = tokens_out(runs.map_values(|run: Run| run.start), per_time, t);
            &&& out.finite()
            &&& now + window.wait(now) <= t <==> out.len() < amount
        }),
{
    let opened = Window::opened(amount, per_time, at);
    let k = runs.len() as int;
    let taken = runs.map_values(|run: Run| run.start);
    let out = tokens_out(taken, per_time, t);
    assert(taken =~= finishes(runs));
    law_remembers_latest(opened, runs);
    lemma_finishes_sorted(runs);
    lemma_int_range(0, k);
    lemma_len_subset(out, set_int_range(0, k));
    if k >= amount {
        let oldest = k - amount;
        assert(after(opened, runs).finish_times[0] == taken[oldest]);
        if taken[oldest] + per_time <= t {
            lemma_int_range(oldest + 1, k);
            assert forall|i: int| out.contains(i) implies set_int_range(oldest + 1, k).contains(
                i,
            ) by {
                if i <= oldest {
                    assert(taken[i] <= taken[oldest]);
                }
            }
            lemma_len_subset(out, set_int_range(oldest + 1, k));
        } else {
            lemma_int_range(oldest, k);
            assert forall|i: int| set_int_range(oldest, k).contains(i) implies out.contains(i) by {
                assert(taken[oldest] <= taken[i]);
            }
            lemma_len_subset(set_int_range(oldest, k), out);
        }
    }
}

/// Attempts at one task go through the limiter as so many tasks do: each of them finds the limiter
/// in the state in which a task of its own would have found it, so it has the same time to wait.
/// The first that succeeds answers with its finish time, and until then there is no answer.
pub proof fn law_retries_are_limited_like_tasks(
    window: Window,
    attempts: Seq<(Run, TaskResult)>,
    k: int,
)
    requires
        0 <= k <= attempts.len(),
        forall|i: int| 0 <= i < attempts.len() - 1 ==> (#[trigger] attempts[i]).1 is TryAgain,
    ensures
        ({
            let runs = attempts.map_values(|attempt: (Run, TaskResult)| attempt.0);
            let (state, answer) = retried(window, attempts.take(k));
            &&& state == after(window, runs.take(k))
            &&& answer == if k > 0 && attempts[k - 1].1 is Success {
                Some(runs[k - 1].finish)
            } else {
                None
            }
        }),
    decreases k,
{
    let runs = attempts.map_values(|attempt: (Run, TaskResult)| attempt.0);
    if k > 0 {
        law_retries_are_limited_like_tasks(window, attempts, k - 1);
        assert(attempts.take(k).drop_last() =~= attempts.take(k - 1));
        assert(runs.take(k).drop_last() =~= runs.take(k - 1));
        if k > 1 {
            assert(attempts[k - 2].1 is TryAgain);
        }
    }
}

/// With an empty `per_time` no task waits.
pub proof fn law_zero_per_time_never_waits(window: Window, now: nat)
    requires
        window.finish_times.len() > 0,
        window.per_time == 0,
        window.finish_times[0] <= now,
    ensures
        window.wait(now) == 0,
{
}

} // verus!
