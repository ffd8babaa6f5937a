//! The limiter for a caller that runs its tasks one after the other.
use vstd::prelude::*;

use crate::time::{is_over, is_reading, nanos_between, Clock, Duration, Instant, MAX_NANOS};
use crate::window::Window;
use crate::{TaskResult, ZeroAmountError};

verus! {

/// The most tasks per `per_time` that a limiter can be asked for: their finish times, of sixteen
/// bytes each, have to fit into one allocation.
pub const MAX_AMOUNT: usize = usize::MAX / 32;

/// A synchronous, task-length aware rate limiter.
///
/// Schedules tasks one at a time, pausing until a rate-limit slot is free before each execution.
/// The slot is only released after the task *finishes*, ensuring downstream services never receive
/// more concurrent requests than `amount` within any `per_time` window.
///
/// The pause is left to the caller, who knows how to put a thread to sleep. Each scheduled task
/// goes through two steps: [`begin`](RateLimiter::begin) takes a slot and tells how long to pause,
/// and [`finish`](RateLimiter::finish) gives the slot back once the task has run.
pub struct RateLimiter {
    /// Finish times of the latest tasks, sorted oldest first.
    finish_times: Vec<Instant>,
    /// The slots that no task has held yet.
    unused: usize,
    per_time: Duration,
    clock: Clock,
}

impl View for RateLimiter {
    type V = Window;

    closed spec fn view(&self) -> Window {
        Window {
            finish_times: self.finish_times@.map_values(|instant: Instant| instant@),
            unused: self.unused as nat,
            per_time: self.per_time@,
        }
    }
}

/// `pause` was called with the time that a task has to wait for its slot, from the time on that the
/// clock showed.
pub open spec fn paused_for_slot<P: FnOnce(Duration)>(
    window: Window,
    clock: Clock,
    pause: P,
) -> bool {
    exists|now: Instant, span: Duration|
        #![trigger now@, call_ensures(pause, (span,), ())]
        {
            &&& clock.shows(now@)
            &&& span@ == window.wait(now@)
            &&& call_ensures(pause, (span,), ())
        }
}

/// A pause was for a slot just where it was called, at a time that the clock measured, for no time
/// at all if a slot was unused, and else for just as long as it takes until `per_time` has passed
/// since the oldest finish.
pub proof fn law_pauses_until_the_slot_opens<P: FnOnce(Duration)>(
    window: Window,
    clock: Clock,
    pause: P,
)
    ensures
        paused_for_slot(window, clock, pause) <==> exists|now: Instant, span: Duration|
            #![trigger now@, call_ensures(pause, (span,), ())]
            {
                let opens_at = window.finish_times[0] + window.per_time;
                &&& exists|reading: std::time::Instant| #[trigger]
                    nanos_between(clock.spec_origin(), reading) == now@
                &&& call_ensures(pause, (span,), ())
                &&& window.unused > 0 || opens_at <= now@ ==> span@ == 0
                &&& window.unused == 0 && now@ <= opens_at ==> now@ + span@ == opens_at
            },
{
    let o = clock.spec_origin();
    if paused_for_slot(window, clock, pause) {
        let (now, span) = choose|now: Instant, span: Duration|
            #![trigger now@, call_ensures(pause, (span,), ())]
            clock.shows(now@) && span@ == window.wait(now@) && call_ensures(pause, (span,), ());
        let reading = choose|reading: std::time::Instant|
            now@ == #[trigger] nanos_between(o, reading);
        assert(nanos_between(o, reading) == now@ && call_ensures(pause, (span,), ()));
    }
}

/// What [`RateLimiter::next_start`] returns, where no slot is unused, lies `per_time` after the oldest
/// finish time, and it returns nothing only where that is no point in time.
pub proof fn law_next_start_is_told(limiter: RateLimiter, start: Option<Instant>)
    requires
        call_ensures(RateLimiter::next_start, (&limiter,), start),
    ensures
        limiter@.unused == 0 && start is Some ==> start->0@ == limiter@.finish_times[0]
            + limiter@.per_time,
        start is None ==> limiter@.unused == 0 && limiter@.finish_times[0] + limiter@.per_time
            > 18_446_744_073_709_551_615_999_999_999,
        start matches Some(instant) ==> forall|now: nat|
            instant@ <= now ==> #[trigger] limiter@.wait(now) == 0,
{
}

/// A limiter can be asked for as many finish times as half of the address space holds, at sixteen
/// bytes each.
pub proof fn law_max_amount()
    ensures
        MAX_AMOUNT * 32 <= usize::MAX < (MAX_AMOUNT + 1) * 32,
{
}

impl RateLimiter {
    /// There is a slot to take, and the time from which it is open can be told.
    pub open spec fn ready(self) -> bool {
        &&& self@.finish_times.len() > 0
        &&& self@.next_start() <= MAX_NANOS
    }

    /// A limiter that has a slot is ready whenever a slot is unused, and else whenever the sum of
    /// its oldest finish time and `per_time` is a point in time.
    pub proof fn law_ready_unless_out_of_range(self)
        requires
            self@.finish_times.len() > 0,
        ensures
            self@.unused > 0 ==> self.ready(),
            self@.unused == 0 ==> (self.ready() <==> self@.finish_times[0] + self@.per_time
                <= 18_446_744_073_709_551_615_999_999_999),
    {
    }

    /// Creates a new rate limiter that allows `amount` tasks per `per_time`. The first `amount` tasks
    /// run immediately.
    ///
    /// # Errors
    ///
    /// Returns [`Err(ZeroAmountError)`](ZeroAmountError) if `amount` is zero.
    pub fn new(amount: usize, per_time: Duration) -> (limiter: Result<RateLimiter, ZeroAmountError>)
        requires
            amount <= MAX_AMOUNT,
        ensures
            limiter is Err <==> amount == 0,
            limiter matches Ok(limiter) ==> exists|now: Instant|
                {
                    &&& limiter.spec_clock().shows(now@)
                    &&& now@ <= MAX_NANOS
                    &&& limiter@ == Window::opened(amount as nat, per_time@, #[trigger] now@)
                },
            limiter matches Ok(limiter) ==> is_reading(limiter.spec_clock().spec_origin())
                && exists|reading: std::time::Instant|
                {
                    &&& is_reading(reading)
                    &&& limiter@ == Window::opened(
                        amount as nat,
                        per_time@,
                        #[trigger] nanos_between(limiter.spec_clock().spec_origin(), reading),
                    )
                },
    {
        let clock = Clock::start();
        let now = clock.now();
        Self::new_at(amount, per_time, clock, now)
    }

    /// Creates a new rate limiter that goes by `clock`, of which `now` is the present reading: the
    /// finish times start out as `now`. The first `amount` tasks run immediately.
    ///
    /// # Errors
    ///
    /// Returns [`Err(ZeroAmountError)`](ZeroAmountError) if `amount` is zero.
    pub fn new_at(amount: usize, per_time: Duration, clock: Clock, now: Instant) -> (limiter: Result<
        RateLimiter,
        ZeroAmountError,
    >)
        requires
            amount <= MAX_AMOUNT,
        ensures
            limiter is Err <==> amount == 0,
            limiter matches Ok(limiter) ==> limiter@ == Window::opened(
                amount as nat,
                per_time@,
                now@,
            ),
            limiter matches Ok(limiter) ==> limiter.spec_clock() == clock,
    {
        if amount == 0 {
            return Err(ZeroAmountError);
        }
        let finish_times = vec![now; amount];
        let limiter = RateLimiter { finish_times, unused: amount, per_time, clock };
        assert(limiter@.finish_times =~= Window::opened(
            amount as nat,
            per_time@,
            now@,
        ).finish_times);
        Ok(limiter)
    }

    /// Takes a slot for a task that is scheduled at `now`: an unused one or, where there is none,
    /// that of the oldest finish time. Returns how long to pause before the task may run.
    pub fn begin(&mut self, now: Instant) -> (time_to_wait: Duration)
        requires
            old(self).ready(),
        ensures
            time_to_wait@ == old(self)@.wait(now@),
            old(self)@.unused > 0 ==> time_to_wait@ == 0,
            old(self)@.unused == 0 ==> {
                let opens_at = old(self)@.finish_times[0] + old(self)@.per_time;
                &&& opens_at <= now@ ==> time_to_wait@ == 0
                &&& now@ <= opens_at ==> now@ + time_to_wait@ == opens_at
            },
            final(self)@ == old(self)@.taken(),
            final(self).spec_clock() == old(self).spec_clock(),
    {
        let oldest_finish_time = self.finish_times.remove(0);
        assert(self@.finish_times =~= old(self)@.finish_times.drop_first());
        if self.unused > 0 {
            self.unused = self.unused - 1;
            return Duration::zero();
        }
        match oldest_finish_time.checked_add(self.per_time) {
            Some(wait_until) => wait_until.duration_since(now),
            None => {
                assert(false);
                Duration::zero()
            },
        }
    }

    /// Gives back the slot of a task that finished at `finished_at`.
    pub fn finish(&mut self, finished_at: Instant)
        ensures
            final(self)@ == old(self)@.finished(finished_at@),
            final(self).spec_clock() == old(self).spec_clock(),
    {
        // The latest finish time goes to the end, which keeps the list sorted oldest first.
        self.finish_times.push(finished_at);
        assert(self@.finish_times =~= old(self)@.finish_times.push(finished_at@));
    }

    /// Gives back the slot of an attempt that finished at `finished_at` and came to `result`.
    /// Returns when the task finished, or `None` if it has to be tried again.
    pub fn finish_attempt(&mut self, finished_at: Instant, result: TaskResult) -> (finished: Option<
        Instant,
    >)
        ensures
            final(self)@ == old(self)@.finished(finished_at@),
            final(self).spec_clock() == old(self).spec_clock(),
            finished == match result {
                TaskResult::Success => Some(finished_at),
                TaskResult::TryAgain => None,
            },
    {
        self.finish(finished_at);
        match result {
            TaskResult::Success => Some(finished_at),
            TaskResult::TryAgain => None,
        }
    }

    /// Runs the given task, which is scheduled at `now`, in a slot: calls `pause` with the time until
    /// the slot is available, then runs the task, and only then calls `read` for the time at which
    /// the task finished.
    ///
    /// The task may rely on the pause being over, and `read` on the task being over.
    ///
    /// Returns what was read.
    pub fn run_in_slot<P, F, N>(&mut self, now: Instant, pause: P, task: F, read: N) -> (finished_at:
        Instant) where P: FnOnce(Duration), F: FnOnce(), N: FnOnce() -> Instant
        requires
            old(self).ready(),
            forall|span: Duration| call_requires(pause, (span,)),
            forall|span: Duration|
                span@ == old(self)@.wait(now@) && #[trigger] call_ensures(pause, (span,), ())
                    ==> call_requires(task, ()),
            call_ensures(task, (), ()) ==> call_requires(read, ()),
        ensures
            exists|span: Duration|
                span@ == old(self)@.wait(now@) && #[trigger] call_ensures(pause, (span,), ()),
            call_ensures(task, (), ()),
            call_ensures(read, (), finished_at),
            final(self)@ == old(self)@.taken().finished(finished_at@),
            final(self).spec_clock() == old(self).spec_clock(),
    {
        let time_to_wait = self.begin(now);
        pause(time_to_wait);
        task();
        let finished_at = read();
        self.finish(finished_at);
        finished_at
    }

    /// Makes one attempt, which is scheduled at `now`, at the given task in a slot: calls `pause`
    /// with the time until the slot is available, then runs the task, and only then calls `read` for
    /// the time at which the attempt finished.
    ///
    /// The task may rely on the pause being over, and `read` on the task being over.
    ///
    /// Returns what was read if the task is done, and `None` if it has to be tried again.
    pub fn attempt_in_slot<P, F, N>(&mut self, now: Instant, pause: P, task: F, read: N) -> (finished:
        Option<Instant>) where
        P: FnOnce(Duration),
        F: FnOnce() -> TaskResult,
        N: FnOnce() -> Instant,

        requires
            old(self).ready(),
            forall|span: Duration| call_requires(pause, (span,)),
            forall|span: Duration|
                span@ == old(self)@.wait(now@) && #[trigger] call_ensures(pause, (span,), ())
                    ==> call_requires(task, ()),
            forall|result: TaskResult| #[trigger]
                call_ensures(task, (), result) ==> call_requires(read, ()),
        ensures
            exists|span: Duration|
                span@ == old(self)@.wait(now@) && #[trigger] call_ensures(pause, (span,), ()),
            exists|finished_at: Instant, result: TaskResult|
                {
                    &&& #[trigger] call_ensures(task, (), result)
                    &&& #[trigger] call_ensures(read, (), finished_at)
                    &&& final(self)@ == old(self)@.taken().finished(finished_at@)
                    &&& finished == match result {
                        TaskResult::Success => Some(finished_at),
                        TaskResult::TryAgain => None,
                    }
                },
            final(self).spec_clock() == old(self).spec_clock(),
    {
        let time_to_wait = self.begin(now);
        pause(time_to_wait);
        let result = task();
        let finished_at = read();
        self.finish_attempt(finished_at, result)
    }

    /// Runs the given task, after calling `pause` with the time until a rate-limit slot is
    /// available. The task may rely on the pause being over.
    ///
    /// Returns the [`Instant`] when the task finished. It is read once the task is over, as
    /// [`run_in_slot`](RateLimiter::run_in_slot) states.
    pub fn schedule_task<P, F>(&mut self, pause: P, task: F) -> (finished_at: Instant) where
        P: FnOnce(Duration),
        F: FnOnce(),

        requires
            old(self).ready(),
            forall|span: Duration| call_requires(pause, (span,)),
            paused_for_slot(old(self)@, old(self).spec_clock(), pause) ==> call_requires(task, ()),
        ensures
            paused_for_slot(old(self)@, old(self).spec_clock(), pause),
            call_ensures(task, (), ()),
            old(self).spec_clock().shows(finished_at@),
            old(self).spec_clock().shows_after(finished_at@, task),
            finished_at@ <= MAX_NANOS,
            // The pause is for the time that is left at a first reading, and the finish is a last
            // one, or the first where the last is earlier.
            exists|first: std::time::Instant, last: std::time::Instant, span: Duration|
                #![trigger
                    nanos_between(old(self).spec_clock().spec_origin(), first),
                    nanos_between(old(self).spec_clock().spec_origin(), last),
                    call_ensures(pause, (span,), ())]
                {
                    let now = nanos_between(old(self).spec_clock().spec_origin(), first);
                    let end = nanos_between(old(self).spec_clock().spec_origin(), last);
                    &&& is_reading(first)
                    &&& is_reading(last)
                    &&& span@ == old(self)@.wait(now)
                    &&& call_ensures(pause, (span,), ())
                    &&& now <= finished_at@
                    &&& end <= finished_at@
                    &&& finished_at@ == now || finished_at@ == end
                },
            final(self)@ == old(self)@.taken().finished(finished_at@),
            final(self).spec_clock() == old(self).spec_clock(),
    {
        let clock = self.clock;
        let now = clock.now();
        let over: Ghost<F> = Ghost(task);
        let read = (|| -> (instant: Instant)
            requires
                is_over(over@),
            ensures
                clock.shows(instant@),
                clock.shows_after(instant@, over@),
                now@ <= instant@ <= MAX_NANOS,
                exists|reading: std::time::Instant|
                    {
                        &&& is_reading(reading)
                        &&& #[trigger] nanos_between(clock.spec_origin(), reading) <= instant@
                        &&& instant@ == nanos_between(clock.spec_origin(), reading) || instant@
                            == now@
                    },
            { clock.finish_of(now, over) });
        self.run_in_slot(now, pause, task, read)
    }

    /// Makes one attempt at the given task, after calling `pause` with the time until a rate-limit
    /// slot is available. The task may rely on the pause being over.
    ///
    /// Returns the [`Instant`] when the attempt finished if the task is done. It is read once the
    /// attempt is over, as [`attempt_in_slot`](RateLimiter::attempt_in_slot) states. Returns `None`
    /// if the task has to be tried again: the caller comes back until it is done. Each attempt,
    /// retries included, waits for an available slot, so the rate limit is respected throughout.
    pub fn schedule_task_with_retry<P, F>(&mut self, pause: P, task: F) -> (finished: Option<
        Instant,
    >) where P: FnOnce(Duration), F: FnOnce() -> TaskResult
        requires
            old(self).ready(),
            forall|span: Duration| call_requires(pause, (span,)),
            paused_for_slot(old(self)@, old(self).spec_clock(), pause) ==> call_requires(task, ()),
        ensures
            paused_for_slot(old(self)@, old(self).spec_clock(), pause),
            exists|finished_at: Instant, result: TaskResult|
                #![trigger finished_at@, call_ensures(task, (), result)]
                {
                    &&& call_ensures(task, (), result)
                    &&& old(self).spec_clock().shows(finished_at@)
                    &&& old(self).spec_clock().shows_after(finished_at@, task)
                    &&& finished_at@ <= MAX_NANOS
                    // The pause is for the time that is left at a first reading, and the finish is
                    // a last one, or the first where the last is earlier.
                    &&& exists|first: std::time::Instant, last: std::time::Instant, span: Duration|
                        #![trigger
                            nanos_between(old(self).spec_clock().spec_origin(), first),
                            nanos_between(old(self).spec_clock().spec_origin(), last),
                            call_ensures(pause, (span,), ())]
                        {
                            let now = nanos_between(old(self).spec_clock().spec_origin(), first);
                            let end = nanos_between(old(self).spec_clock().spec_origin(), last);
                            &&& is_reading(first)
                            &&& is_reading(last)
                            &&& span@ == old(self)@.wait(now)
                            &&& call_ensures(pause, (span,), ())
                            &&& now <= finished_at@
                            &&& end <= finished_at@
                            &&& finished_at@ == now || finished_at@ == end
                        }
                    &&& final(self)@ == old(self)@.taken().finished(finished_at@)
                    &&& finished == match result {
                        TaskResult::Success => Some(finished_at),
                        TaskResult::TryAgain => None,
                    }
                },
            final(self).spec_clock() == old(self).spec_clock(),
    {
        let clock = self.clock;
        let now = clock.now();
        let over: Ghost<F> = Ghost(task);
        let read = (|| -> (instant: Instant)
            requires
                is_over(over@),
            ensures
                clock.shows(instant@),
                clock.shows_after(instant@, over@),
                now@ <= instant@ <= MAX_NANOS,
                exists|reading: std::time::Instant|
                    {
                        &&& is_reading(reading)
                        &&& #[trigger] nanos_between(clock.spec_origin(), reading) <= instant@
                        &&& instant@ == nanos_between(clock.spec_origin(), reading) || instant@
                            == now@
                    },
            { clock.finish_of(now, over) });
        self.attempt_in_slot(now, pause, task, read)
    }

    /// The time from which the next task may start, which is the clock's origin where a slot is
    /// unused, or `None` where it is too late to be told.
    pub fn next_start(&self) -> (start: Option<Instant>)
        requires
            self@.finish_times.len() > 0,
        ensures
            start is Some <==> self@.next_start() <= MAX_NANOS,
            start matches Some(instant) ==> instant@ == self@.next_start(),
            self@.unused > 0 ==> (start matches Some(instant) && instant@ == 0),
            self@.unused == 0 ==> match start {
                Some(instant) => instant@ == self@.finish_times[0] + self@.per_time,
                None => self@.finish_times[0] + self@.per_time > MAX_NANOS,
            },
    {
        if self.unused > 0 {
            return Some(Instant::after_origin(Duration::zero()));
        }
        self.finish_times[0].checked_add(self.per_time)
    }

    /// The finish times that the limiter goes by, oldest first. A slot that no task has held yet has
    /// the time at which the limiter was created.
    pub fn finish_times(&self) -> (finish_times: &Vec<Instant>)
        ensures
            finish_times@.map_values(|instant: Instant| instant@) == self@.finish_times,
    {
        &self.finish_times
    }

    /// The clock that the limiter goes by.
    pub closed spec fn spec_clock(self) -> Clock {
        self.clock
    }

    /// The clock that the limiter goes by.
    pub fn clock(&self) -> (clock: Clock)
        ensures
            clock == self.spec_clock(),
    {
        self.clock
    }
}

} // verus!
