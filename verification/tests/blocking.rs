use ritlers::blocking::RateLimiter;
use ritlers::time::{Clock, Duration, Instant};
use ritlers::{TaskResult, ZeroAmountError};

/// Waits for the given time.
fn pause(span: Duration) {
    let span = std::time::Duration::new(span.as_secs(), span.subsec_nanos());
    let start = std::time::Instant::now();
    while start.elapsed() < span {
        std::hint::spin_loop();
    }
}

fn at_secs(secs: u64) -> Instant {
    Instant::after_origin(Duration::from_secs(secs))
}

fn at_millis(millis: u64) -> Instant {
    Instant::after_origin(Duration::from_millis(millis))
}

fn later(instant: Instant, span: Duration) -> Instant {
    instant.checked_add(span).unwrap()
}

#[test]
fn test_parameter_correctness() {
    assert!(
        RateLimiter::new(0, Duration::from_secs(1)).is_err(),
        "Zero tasks allowed is not possible"
    );
    assert!(RateLimiter::new(1, Duration::from_secs(1)).is_ok());
    assert!(RateLimiter::new(2, Duration::from_secs(1)).is_ok());
    assert!(RateLimiter::new(500, Duration::from_secs(1)).is_ok());
    assert!(RateLimiter::new(1, Duration::zero()).is_ok());
    assert!(RateLimiter::new(1, Duration::from_secs(500)).is_ok());
    assert!(RateLimiter::new(1, Duration::longest()).is_ok());
}

#[test]
fn test_initialization_finish_times() {
    let rate_limiter_1 = RateLimiter::new(1, Duration::from_secs(1)).unwrap();
    assert_eq!(
        rate_limiter_1.finish_times().len(),
        1,
        "There should be exactly one default finish time"
    );
    assert!(
        rate_limiter_1.finish_times().first().unwrap() < &rate_limiter_1.clock().now(),
        "The initial finish time should be older than now"
    );

    let rate_limiter_10 = RateLimiter::new(10, Duration::from_secs(10)).unwrap();
    assert_eq!(rate_limiter_10.finish_times().len(), 10);
    assert!(rate_limiter_10
        .finish_times()
        .iter()
        .all(|t| t < &rate_limiter_10.clock().now()));
}

#[test]
fn test_sequential_delays() {
    let mut rate_limiter = RateLimiter::new(1, Duration::from_secs(1)).unwrap();

    let finished_1 = rate_limiter.schedule_task(pause, || pause(Duration::from_secs(1)));
    let finished_2 = rate_limiter.schedule_task(pause, || pause(Duration::from_secs(1)));
    let finished_3 = rate_limiter.schedule_task(pause, || pause(Duration::from_secs(1)));
    assert!(later(finished_1, Duration::from_secs(1)) < finished_2);
    assert!(later(finished_2, Duration::from_secs(1)) < finished_3);
}

#[test]
fn test_concurrent_delays() {
    let mut rate_limiter = RateLimiter::new(3, Duration::from_secs(1)).unwrap();

    let finished_1 = rate_limiter.schedule_task(pause, || {});
    let finished_2 = rate_limiter.schedule_task(pause, || {});
    let finished_3 = rate_limiter.schedule_task(pause, || {});
    let finished_4 = rate_limiter.schedule_task(pause, || {});
    // Tasks 2 and 3 share the initial burst, so they finish close to task 1
    assert!(finished_2.duration_since(finished_1) < Duration::from_secs(1));
    assert!(finished_3.duration_since(finished_1) < Duration::from_secs(1));
    // Task 4 must wait for the window opened by task 1 to expire
    assert!(later(finished_1, Duration::from_secs(1)) < finished_4);
}

/// Comes back with a task until it is done.
fn until_done<F>(rate_limiter: &mut RateLimiter, mut task: F) -> Instant
where
    F: FnMut() -> TaskResult,
{
    loop {
        if let Some(finished) = rate_limiter.schedule_task_with_retry(pause, &mut task) {
            return finished;
        }
    }
}

#[test]
fn test_retry() {
    let mut rate_limiter = RateLimiter::new(1, Duration::from_millis(50)).unwrap();

    let attempts = std::cell::Cell::new(0u32);
    let finished = until_done(&mut rate_limiter, || {
        attempts.set(attempts.get() + 1);
        if attempts.get() < 3 {
            TaskResult::TryAgain
        } else {
            TaskResult::Done
        }
    });

    assert_eq!(
        attempts.get(),
        3,
        "Should have attempted 3 times (2 retries)"
    );
    assert!(finished <= rate_limiter.clock().now());
}

/// Done on the very first attempt must stop the loop without retrying.
#[test]
fn test_done_stops_immediately() {
    let mut rate_limiter = RateLimiter::new(1, Duration::from_millis(50)).unwrap();

    let attempts = std::cell::Cell::new(0u32);
    until_done(&mut rate_limiter, || {
        attempts.set(attempts.get() + 1);
        TaskResult::Done
    });

    assert_eq!(
        attempts.get(),
        1,
        "Done should stop after a single attempt without retrying"
    );
}

/// With per_time = 0 there is no enforced wait between tasks, so many
/// tasks should complete near-instantly with no sleeping.
#[test]
fn test_zero_per_time() {
    let mut rate_limiter = RateLimiter::new(1, Duration::zero()).unwrap();

    let start = std::time::Instant::now();
    for _ in 0..5 {
        rate_limiter.schedule_task(pause, || {});
    }
    assert!(
        start.elapsed() < std::time::Duration::from_millis(200),
        "Tasks with per_time=0 should complete without enforced delays"
    );
}

/// Retries must respect the same rate-limit interval as plain tasks — they
/// are not allowed to run back-to-back without waiting for a slot.
#[test]
fn test_retry_is_rate_limited() {
    let mut rate_limiter = RateLimiter::new(1, Duration::from_millis(100)).unwrap();
    let clock = rate_limiter.clock();

    let finish_times = std::cell::RefCell::new(Vec::<Instant>::new());
    until_done(&mut rate_limiter, || {
        finish_times.borrow_mut().push(clock.now());
        if finish_times.borrow().len() < 3 {
            TaskResult::TryAgain
        } else {
            TaskResult::Done
        }
    });

    let times = finish_times.borrow();
    assert_eq!(times.len(), 3);
    assert!(
        times[1].duration_since(times[0]) >= Duration::from_millis(100),
        "Second attempt should be at least one interval after the first"
    );
    assert!(
        times[2].duration_since(times[1]) >= Duration::from_millis(100),
        "Third attempt should be at least one interval after the second"
    );
}

/// The internal `finish_times` vec must always hold exactly `amount`
/// entries — never more, never fewer — regardless of how many tasks run.
#[test]
fn test_finish_times_count_stays_constant() {
    let amount = 3;
    let mut rate_limiter = RateLimiter::new(amount, Duration::zero()).unwrap();

    assert_eq!(rate_limiter.finish_times().len(), amount);
    for _ in 0..5 {
        rate_limiter.schedule_task(pause, || {});
        assert_eq!(
            rate_limiter.finish_times().len(),
            amount,
            "finish_times length must stay equal to amount after each task"
        );
    }
}

/// Done after several TryAgain returns must stop the loop at that point.
#[test]
fn test_try_again_then_done() {
    let mut rate_limiter = RateLimiter::new(1, Duration::from_millis(50)).unwrap();

    let attempts = std::cell::Cell::new(0u32);
    until_done(&mut rate_limiter, || {
        attempts.set(attempts.get() + 1);
        if attempts.get() < 3 {
            TaskResult::TryAgain
        } else {
            TaskResult::Done
        }
    });

    assert_eq!(
        attempts.get(),
        3,
        "Should have run 3 times (2 TryAgain retries) before stopping on Done"
    );
}

#[test]
fn zero_amount_is_the_only_error() {
    assert_eq!(
        RateLimiter::new(0, Duration::zero()).err(),
        Some(ZeroAmountError)
    );
    let clock = Clock::start();
    assert_eq!(
        RateLimiter::new_at(0, Duration::zero(), clock, at_secs(7)).err(),
        Some(ZeroAmountError)
    );
}

#[test]
fn finish_times_start_out_as_the_time_of_creation() {
    let clock = Clock::start();
    let mut limiter =
        RateLimiter::new_at(2, Duration::from_secs(10), clock, at_secs(100)).unwrap();
    assert_eq!(limiter.finish_times(), &vec![at_secs(100), at_secs(100)]);
    assert_eq!(limiter.begin(at_secs(104)), Duration::zero());
    assert_eq!(limiter.finish_times(), &vec![at_secs(100)]);
    limiter.finish(at_secs(105));
    assert_eq!(limiter.finish_times(), &vec![at_secs(100), at_secs(105)]);
}

/// 2 tasks per second: tasks 1 and 2 run immediately, then the limiter waits before starting task 3.
#[test]
fn first_tasks_run_immediately() {
    let mut limiter = RateLimiter::new(2, Duration::from_secs(1)).unwrap();
    let pauses = std::cell::RefCell::new(vec![]);
    let noted = |span: Duration| {
        pauses.borrow_mut().push(span);
        pause(span);
    };
    let done_1 = limiter.schedule_task(&noted, || {});
    let _done_2 = limiter.schedule_task(&noted, || {});
    let done_3 = limiter.schedule_task(&noted, || {});
    assert_eq!(pauses.borrow()[..2], [Duration::zero(), Duration::zero()]);
    assert!(pauses.borrow()[2] > Duration::zero());
    assert!(done_3 >= later(done_1, Duration::from_secs(1)));
}

#[test]
fn slots_are_unused_only_once() {
    let mut limiter =
        RateLimiter::new_at(2, Duration::from_secs(10), Clock::start(), at_secs(100)).unwrap();
    assert_eq!(limiter.next_start(), Some(at_secs(0)));
    assert_eq!(limiter.begin(at_secs(100)), Duration::zero());
    limiter.finish(at_secs(103));
    assert_eq!(limiter.begin(at_secs(103)), Duration::zero());
    limiter.finish(at_secs(104));
    assert_eq!(limiter.next_start(), Some(at_secs(113)));
    assert_eq!(limiter.begin(at_secs(104)), Duration::from_secs(9));
    limiter.finish(at_secs(113));
    assert_eq!(limiter.begin(at_secs(113)), Duration::from_secs(1));
}

#[test]
fn finish_times_stay_oldest_first() {
    let clock = Clock::start();
    let mut limiter = RateLimiter::new_at(3, Duration::from_secs(10), clock, at_secs(0)).unwrap();
    for (start, finish) in [(10, 11), (11, 19), (19, 20), (21, 40)] {
        limiter.begin(at_secs(start));
        limiter.finish(at_secs(finish));
    }
    assert_eq!(
        limiter.finish_times(),
        &vec![at_secs(19), at_secs(20), at_secs(40)]
    );
    assert_eq!(limiter.next_start(), Some(at_secs(29)));
}

#[test]
fn no_pause_once_a_slot_has_opened() {
    let clock = Clock::start();
    let mut limiter =
        RateLimiter::new_at(1, Duration::from_millis(500), clock, at_millis(0)).unwrap();
    assert_eq!(limiter.begin(at_millis(0)), Duration::zero());
    limiter.finish(at_millis(100));
    assert_eq!(limiter.begin(at_millis(600)), Duration::zero());
    limiter.finish(at_millis(700));
    assert_eq!(limiter.begin(at_millis(2000)), Duration::zero());
    limiter.finish(at_millis(2100));
    assert_eq!(limiter.begin(at_millis(2101)), Duration::from_millis(499));
}

#[test]
fn attempt_is_over_only_if_it_succeeded() {
    let clock = Clock::start();
    let mut limiter = RateLimiter::new_at(1, Duration::from_secs(1), clock, at_secs(0)).unwrap();
    limiter.begin(at_secs(1));
    assert_eq!(limiter.finish_attempt(at_secs(2), TaskResult::TryAgain), None);
    assert_eq!(limiter.next_start(), Some(at_secs(3)));
    limiter.begin(at_secs(3));
    assert_eq!(
        limiter.finish_attempt(at_secs(4), TaskResult::Success),
        Some(at_secs(4))
    );
    assert_eq!(limiter.next_start(), Some(at_secs(5)));
}

/// Attempts at one task wait as so many tasks do.
#[test]
fn attempts_wait_like_tasks() {
    let per_time = Duration::from_secs(10);
    let mut tasks = RateLimiter::new_at(2, per_time, Clock::start(), at_secs(0)).unwrap();
    let mut attempts = RateLimiter::new_at(2, per_time, Clock::start(), at_secs(0)).unwrap();
    let mut answer = None;
    for (asked, finish) in [(0, 1), (1, 5), (5, 11), (11, 15), (15, 21)] {
        assert_eq!(tasks.begin(at_secs(asked)), attempts.begin(at_secs(asked)));
        tasks.finish(at_secs(finish));
        let result = if finish < 21 { TaskResult::TryAgain } else { TaskResult::Success };
        assert_eq!(answer, None);
        answer = attempts.finish_attempt(at_secs(finish), result);
        assert_eq!(tasks.finish_times(), attempts.finish_times());
    }
    assert_eq!(answer, Some(at_secs(21)));
}

#[test]
fn start_out_of_range_is_not_told() {
    let mut limiter =
        RateLimiter::new_at(1, Duration::longest(), Clock::start(), at_secs(1)).unwrap();
    assert_eq!(limiter.next_start(), Some(at_secs(0)));
    limiter.begin(at_secs(1));
    limiter.finish(at_secs(1));
    assert_eq!(limiter.next_start(), None);
}

/// Tasks of all lengths, run as soon as they may: no more than `amount` of them run within any
/// `per_time`.
#[test]
fn no_more_than_amount_run_within_per_time() {
    let amount = 3;
    let per_time = 10;
    let mut limiter =
        RateLimiter::new_at(amount, Duration::from_secs(per_time), Clock::start(), at_secs(0))
        .unwrap();
    let mut now = 0;
    let mut runs: Vec<(u64, u64)> = vec![];
    for length in [0, 4, 0, 1, 25, 0, 0, 3, 0, 0, 0, 12, 1, 1] {
        let start = now + limiter.begin(at_secs(now)).as_secs();
        let finish = start + length;
        limiter.finish(at_secs(finish));
        runs.push((start, finish));
        now = finish;
    }
    for t in 0..now {
        let running = runs
            .iter()
            .filter(|(start, finish)| *start < t + per_time && t <= *finish)
            .count();
        assert!(running <= amount);
    }
}

/// Instant tasks start as those of a token bucket that starts full.
#[test]
fn instant_tasks_share_a_token_bucket() {
    let mut limiter =
        RateLimiter::new_at(2, Duration::from_secs(10), Clock::start(), at_secs(0)).unwrap();
    let mut starts = vec![];
    for asked in [0, 1, 2, 10, 45, 46, 47] {
        let start = asked + limiter.begin(at_secs(asked)).as_secs();
        limiter.finish(at_secs(start));
        starts.push(start);
    }
    assert_eq!(starts, vec![0, 1, 10, 11, 45, 46, 55]);
}

#[test]
fn pause_is_called_with_the_time_to_wait() {
    let mut limiter = RateLimiter::new(1, Duration::from_secs(500)).unwrap();
    let asked = std::cell::Cell::new(Duration::zero());
    limiter.schedule_task(|span| asked.set(span), || {});
    assert_eq!(asked.get(), Duration::zero());
    limiter.schedule_task(|span| asked.set(span), || {});
    assert!(asked.get() <= Duration::from_secs(500));
    assert!(asked.get() > Duration::from_secs(400));
}

/// The pause comes before the task, and the finish time is read after it.
#[test]
fn task_runs_between_pause_and_reading() {
    let mut limiter =
        RateLimiter::new_at(1, Duration::from_secs(10), Clock::start(), at_secs(0)).unwrap();
    let events = std::cell::RefCell::new(vec![]);
    let note = |event: &'static str| events.borrow_mut().push(event);
    for (now, span, finish) in [(0, 0, 3), (5, 8, 14)] {
        let finished_at = limiter.run_in_slot(
            at_secs(now),
            |asked| {
                assert_eq!(asked, Duration::from_secs(span));
                note("pause");
            },
            || note("task"),
            || {
                note("read");
                at_secs(finish)
            },
        );
        assert_eq!(finished_at, at_secs(finish));
        assert_eq!(limiter.finish_times(), &vec![at_secs(finish)]);
    }
    for (result, expected) in [
        (TaskResult::TryAgain, None),
        (TaskResult::Success, Some(at_secs(50))),
    ] {
        let finished = limiter.attempt_in_slot(
            at_secs(40),
            |_| note("pause"),
            || {
                note("task");
                result
            },
            || {
                note("read");
                at_secs(50)
            },
        );
        assert_eq!(finished, expected);
        assert_eq!(limiter.finish_times(), &vec![at_secs(50)]);
    }
    assert_eq!(*events.borrow(), ["pause", "task", "read"].repeat(4));
}

/// The clock is read once the task is over, so the time that the task takes counts.
#[test]
fn finish_is_read_after_the_task() {
    let mut limiter = RateLimiter::new(1, Duration::zero()).unwrap();
    let clock = limiter.clock();
    let over = std::cell::Cell::new(clock.now());
    let finished_at = limiter.schedule_task(pause, || {
        pause(Duration::from_millis(20));
        over.set(clock.now());
    });
    assert!(finished_at >= over.get());
    let finished_at = limiter
        .schedule_task_with_retry(pause, || {
            pause(Duration::from_millis(20));
            over.set(clock.now());
            TaskResult::Success
        })
        .unwrap();
    assert!(finished_at >= over.get());
}

#[test]
fn clock_moves_on() {
    let clock = Clock::start();
    let first = clock.now();
    pause(Duration::from_millis(20));
    let second = clock.now();
    assert!(second.duration_since(first) >= Duration::from_millis(20));
    assert!(clock.origin().elapsed() >= std::time::Duration::from_millis(20));
}
