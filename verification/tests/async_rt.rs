use ritlers::async_rt::{Attempt, Cooldown, Dispatch, RateLimiter};
use ritlers::time::Duration;
use ritlers::TaskResult;

/// A runtime whose clock, in milliseconds, stands still unless it is advanced. As in a paused
/// asynchronous runtime, what has become due happens only when the test yields.
struct Runtime {
    limiter: RateLimiter,
    now: u64,
    /// How long each task runs, and how many attempts at it fail before one succeeds.
    tasks: Vec<(u64, u32)>,
    /// 0 before the first attempt, 1 while one runs, 2 afterwards.
    status: Vec<u32>,
    attempts: Vec<u32>,
    succeeded: Vec<bool>,
    running: Vec<(u64, Attempt)>,
    sleeping: Vec<(u64, Cooldown)>,
    /// Start and finish of each attempt that has finished, in the order in which they did.
    runs: Vec<(u64, u64, u64)>,
    started_at: Vec<u64>,
}

impl Runtime {
    fn new(amount: usize, per_time: Duration) -> Runtime {
        Runtime {
            limiter: RateLimiter::new(amount, per_time).unwrap(),
            now: 0,
            tasks: vec![],
            status: vec![],
            attempts: vec![],
            succeeded: vec![],
            running: vec![],
            sleeping: vec![],
            runs: vec![],
            started_at: vec![],
        }
    }

    fn add_task(&mut self, length: u64, failures: u32) -> u64 {
        self.tasks.push((length, failures));
        self.status.push(0);
        self.attempts.push(0);
        self.succeeded.push(false);
        self.started_at.push(0);
        self.tasks.len() as u64 - 1
    }

    fn schedule_task(&mut self, length: u64) -> Option<Duration> {
        let task = self.add_task(length, 0);
        self.limiter.schedule_task(task)
    }

    fn schedule_task_with_retry(&mut self, length: u64, failures: u32) -> Option<Duration> {
        let task = self.add_task(length, failures);
        self.limiter.schedule_task_with_retry(task)
    }

    fn advance(&mut self, millis: u64) {
        self.now += millis;
    }

    fn yield_now(&mut self) {
        loop {
            let mut idle = true;
            if let Some(i) = self.running.iter().position(|(due, _)| *due <= self.now) {
                let (_, attempt) = self.running.remove(i);
                let task = attempt.task() as usize;
                self.status[task] = 2;
                let result = if self.attempts[task] <= self.tasks[task].1 {
                    TaskResult::TryAgain
                } else {
                    self.succeeded[task] = true;
                    TaskResult::Success
                };
                self.runs.push((attempt.task(), self.started_at[task], self.now));
                let cooldown = attempt.finish(result);
                let interval = cooldown.interval();
                let millis = interval.as_secs() * 1000 + interval.subsec_nanos() as u64 / 1_000_000;
                self.sleeping.push((self.now + millis, cooldown));
                idle = false;
            }
            if let Some(i) = self.sleeping.iter().position(|(due, _)| *due <= self.now) {
                let (_, cooldown) = self.sleeping.remove(i);
                self.limiter.release(cooldown);
                idle = false;
            }
            if let Dispatch::Start(attempt) = self.limiter.dispatch() {
                let task = attempt.task() as usize;
                self.status[task] = 1;
                self.attempts[task] += 1;
                self.started_at[task] = self.now;
                self.running.push((self.now + self.tasks[task].0, attempt));
                idle = false;
            }
            if idle {
                return;
            }
        }
    }
}

#[test]
fn test_creation_parameters() {
    assert!(
        RateLimiter::new(0, Duration::from_secs(1)).is_err(),
        "Zero tasks allowed concurrently is not allowed"
    );
    assert!(RateLimiter::new(1, Duration::from_secs(1)).is_ok());
    assert!(RateLimiter::new(100, Duration::from_secs(1)).is_ok());
}

#[test]
fn test_limit_small_tasks() {
    let mut rt = Runtime::new(1, Duration::from_secs(1));
    for _ in 0..3 {
        rt.schedule_task(200);
    }

    // TASK TIMINGS
    // 1: 0.000 -> 0.200 + 1ms
    // 2: 1.200 -> 1.400 + 1ms
    // 3: 2.400 -> 2.600 + 1ms
    assert_eq!(rt.status, [0, 0, 0]);
    rt.yield_now();
    assert_eq!(rt.status, [1, 0, 0], "task 1 should be running");

    rt.advance(201); // 0.0 -> 0.201
    assert_eq!(rt.status, [1, 0, 0], "task 1 should be running");
    rt.yield_now();
    assert_eq!(rt.status, [2, 0, 0], "task 1 should be done now");

    rt.advance(799); // 0.201 -> 1.000
    assert_eq!(rt.status, [2, 0, 0]);
    rt.yield_now();
    assert_eq!(rt.status, [2, 0, 0], "task 2 should not have started yet");

    rt.advance(202); // 1.000 -> 1.202
    assert_eq!(rt.status, [2, 0, 0], "task 2 should not have started yet");
    rt.yield_now();
    assert_eq!(rt.status, [2, 1, 0], "task 2 should have started");

    rt.advance(201); // 1.202 -> 1.403
    assert_eq!(rt.status, [2, 1, 0]);
    rt.yield_now();
    assert_eq!(rt.status, [2, 2, 0], "task 2 should be done now");

    rt.advance(597); // 1.403 -> 2.000
    assert_eq!(rt.status, [2, 2, 0]);
    rt.yield_now();
    assert_eq!(rt.status, [2, 2, 0], "task 3 should not have started yet");

    rt.advance(404); // 2.000 -> 2.404
    assert_eq!(rt.status, [2, 2, 0], "task 3 should not have started yet");
    rt.yield_now();
    assert_eq!(rt.status, [2, 2, 1], "task 3 should have started");

    rt.advance(201); // 2.404 -> 2.605
    assert_eq!(rt.status, [2, 2, 1], "task 3 should have started");
    rt.yield_now();
    assert_eq!(rt.status, [2, 2, 2], "task 3 should be done now");
}

#[test]
fn test_limit_big_tasks() {
    let mut rt = Runtime::new(1, Duration::from_secs(1));
    for _ in 0..3 {
        rt.schedule_task(2000);
    }

    // TASK TIMINGS
    // 1: 0.000 -> 2.000 + 1ms
    // 2: 3.000 -> 5.000 + 1ms
    // 3: 6.000 -> 8.000 + 1ms
    assert_eq!(rt.status, [0, 0, 0]);
    rt.yield_now();
    assert_eq!(rt.status, [1, 0, 0], "task 1 should be running");

    rt.advance(2001); // 0.0 -> 2.0
    assert_eq!(rt.status, [1, 0, 0], "task 1 should be running");
    rt.yield_now();
    assert_eq!(rt.status, [2, 0, 0], "task 1 should be done now");

    rt.advance(1001); // 2.0 -> 3.0
    assert_eq!(rt.status, [2, 0, 0], "task 2 should not have started yet");
    rt.yield_now();
    assert_eq!(rt.status, [2, 1, 0], "task 2 should have started");

    rt.advance(2001); // 3.0 -> 5.0
    assert_eq!(rt.status, [2, 1, 0]);
    rt.yield_now();
    assert_eq!(rt.status, [2, 2, 0], "task 2 should be done now");

    rt.advance(1001); // 5.0 -> 6.0
    assert_eq!(rt.status, [2, 2, 0]);
    rt.yield_now();
    assert_eq!(rt.status, [2, 2, 1], "task 3 should have started");

    rt.advance(2001); // 6.0 -> 8.0
    assert_eq!(rt.status, [2, 2, 1]);
    rt.yield_now();
    assert_eq!(rt.status, [2, 2, 2], "task 3 should be done now");
}

#[test]
fn test_limit_variable_tasks() {
    let mut rt = Runtime::new(3, Duration::from_secs(3));
    for length in [100, 4000, 100, 100, 100, 100] {
        rt.schedule_task(length);
    }

    // TASK TIMINGS
    // 1: 0.000 -> 0.200
    // 2: 0.000 -> 4.000 -> Is part of the second group of 3 tasks per 3 seconds
    // 3: 0.000 -> 0.200
    //
    // 4: 3.200 -> 3.400
    // 5: 3.200 -> 3.400
    //
    // 6: 7.000 -> 7.200
    assert_eq!(rt.status, [0, 0, 0, 0, 0, 0]);
    rt.yield_now();
    assert_eq!(rt.status, [1, 1, 1, 0, 0, 0]);

    rt.advance(200); // 0.0 -> 0.2
    rt.yield_now();
    assert_eq!(rt.status, [2, 1, 2, 0, 0, 0]);

    rt.advance(3001); // 0.2 -> 3.2
    rt.yield_now();
    assert_eq!(rt.status, [2, 1, 2, 1, 1, 0]);

    rt.advance(200); // 3.2 -> 3.4
    rt.yield_now();
    assert_eq!(rt.status, [2, 1, 2, 2, 2, 0]);

    rt.advance(600); // 3.4 -> 4.0
    rt.yield_now();
    assert_eq!(rt.status, [2, 2, 2, 2, 2, 0]);

    rt.advance(3000); // 4.0 -> 7.0
    rt.yield_now();
    assert_eq!(rt.status, [2, 2, 2, 2, 2, 1]);

    rt.advance(200); // 7.0 -> 7.2
    rt.yield_now();
    assert_eq!(rt.status, [2, 2, 2, 2, 2, 2]);
}

#[test]
fn test_eta() {
    let mut rt = Runtime::new(3, Duration::from_secs(3));

    assert_eq!(
        rt.schedule_task(10),
        Some(Duration::from_millis(0)),
        "First task should start immediately"
    );
    assert_eq!(
        rt.schedule_task(10),
        Some(Duration::from_millis(0)),
        "Second task should start immediately"
    );
    assert_eq!(
        rt.schedule_task(10),
        Some(Duration::from_millis(0)),
        "Third task should start immediately"
    );
    assert_eq!(
        rt.schedule_task(10),
        Some(Duration::from_secs(3)),
        "Fourth task should start after at least 3 seconds"
    );
}

/// Verifies that a task that keeps returning TryAgain is re-run after each
/// rate-limit interval and eventually completes once it returns Success.
#[test]
fn test_retry_reruns_task() {
    let mut rt = Runtime::new(1, Duration::from_millis(100));
    // TryAgain on attempts 1 and 2, Success on attempt 3
    rt.schedule_task_with_retry(0, 2);

    rt.yield_now();
    assert_eq!(rt.attempts[0], 1, "first attempt should have run");
    assert!(!rt.succeeded[0]);

    rt.advance(101);
    rt.yield_now();
    assert_eq!(rt.attempts[0], 2, "second attempt should have run");
    assert!(!rt.succeeded[0]);

    rt.advance(101);
    rt.yield_now();
    assert_eq!(rt.attempts[0], 3, "third attempt should have run");
    assert!(rt.succeeded[0], "task should have succeeded on attempt 3");

    // There is no fourth attempt.
    rt.advance(101);
    rt.yield_now();
    assert_eq!(rt.attempts[0], 3);
    assert_eq!(rt.limiter.in_flight(), 0);
    assert_eq!(rt.limiter.eta(), Some(Duration::zero()));
}

/// Verifies that a retried task takes priority over a newly scheduled task
/// that is waiting in the normal task queue.
#[test]
fn test_retry_jumps_queue() {
    // One slot, 1-second window
    let mut rt = Runtime::new(1, Duration::from_secs(1));
    // Task A: TryAgain on first attempt, Success on second
    rt.schedule_task_with_retry(0, 1);
    // Task B: a plain task queued after A
    rt.schedule_task(0);

    rt.yield_now();
    assert_eq!(rt.attempts[0], 1, "A: first attempt");
    assert_eq!(rt.attempts[1], 0, "B should not have started yet");

    rt.advance(1001);
    rt.yield_now();
    assert_eq!(rt.attempts[0], 2, "A: retry ran before B");
    assert_eq!(
        rt.attempts[1], 0,
        "B should still not have started — A's retry took the slot"
    );

    rt.advance(1001);
    rt.yield_now();
    assert_eq!(rt.attempts[1], 1, "B should now have started");
}

fn start(limiter: &mut RateLimiter) -> Attempt {
    match limiter.dispatch() {
        Dispatch::Start(attempt) => attempt,
        other => panic!("nothing was started: {:?}", other),
    }
}

#[test]
fn dispatcher_waits_for_a_task_and_for_a_slot() {
    let mut limiter = RateLimiter::new(1, Duration::from_secs(1)).unwrap();
    assert!(matches!(limiter.dispatch(), Dispatch::AwaitTask));
    assert!(matches!(limiter.dispatch(), Dispatch::AwaitTask));
    limiter.schedule_task(7);
    limiter.schedule_task(8);
    let attempt = start(&mut limiter);
    assert_eq!(attempt.task(), 7);
    assert_eq!(limiter.in_flight(), 1);
    assert!(matches!(limiter.dispatch(), Dispatch::AwaitSlot));
    let cooldown = attempt.finish(TaskResult::Success);
    assert_eq!(cooldown.interval(), Duration::from_secs(1));
    assert!(matches!(limiter.dispatch(), Dispatch::AwaitSlot));
    limiter.release(cooldown);
    assert_eq!(limiter.in_flight(), 0);
    assert_eq!(start(&mut limiter).task(), 8);
}

#[test]
fn zero_amount_is_an_error() {
    assert_eq!(RateLimiter::new(0, Duration::zero()).err(), Some(()));
}

#[test]
fn tasks_start_in_the_order_in_which_they_were_scheduled() {
    let mut limiter = RateLimiter::new(5, Duration::zero()).unwrap();
    for task in [31, 4, 15, 92, 65] {
        limiter.schedule_task(task);
    }
    for task in [31, 4, 15, 92, 65] {
        assert_eq!(start(&mut limiter).task(), task);
    }
}

#[test]
fn full_queue_takes_no_further_task() {
    let mut limiter = RateLimiter::new(2, Duration::from_secs(1)).unwrap();
    for task in 0..100 {
        assert_eq!(
            limiter.schedule_task(task),
            Some(Duration::from_secs(task / 2))
        );
    }
    assert_eq!(limiter.schedule_task(100), None);
    assert_eq!(limiter.schedule_task_with_retry(100), None);
    assert!(!limiter.enqueue(100));
    assert_eq!(start(&mut limiter).task(), 0);
    // The task that was started still counts.
    assert_eq!(limiter.schedule_task(100), Some(Duration::from_secs(50)));
    assert_eq!(limiter.schedule_task(101), None);
}

#[test]
fn estimate_out_of_range_is_not_told() {
    let mut limiter = RateLimiter::new(1, Duration::longest()).unwrap();
    assert_eq!(limiter.schedule_task(0), Some(Duration::zero()));
    assert_eq!(limiter.schedule_task(1), Some(Duration::longest()));
    assert_eq!(limiter.eta(), None);
    // The task can still be put in line.
    assert!(limiter.enqueue(2));
    assert_eq!(start(&mut limiter).task(), 0);
}

#[test]
fn done_tasks_do_not_count_and_retried_ones_do() {
    let mut limiter = RateLimiter::new(1, Duration::from_secs(1)).unwrap();
    limiter.schedule_task_with_retry(0);
    let cooldown = start(&mut limiter).finish(TaskResult::TryAgain);
    limiter.release(cooldown);
    assert_eq!(limiter.eta(), Some(Duration::from_secs(1)));
    let cooldown = start(&mut limiter).finish(TaskResult::Success);
    limiter.release(cooldown);
    assert_eq!(limiter.eta(), Some(Duration::zero()));
}

/// More tasks are to be tried again than the channel for them can hold: they still go ahead of new
/// ones, in order, and none is lost.
#[test]
fn retries_beyond_the_channel_keep_their_order() {
    let amount = 250;
    let mut limiter = RateLimiter::new(amount, Duration::zero()).unwrap();
    let mut attempts = vec![];
    for task in 0..amount as u64 {
        assert!(limiter.schedule_task_with_retry(task).is_some());
        attempts.push(start(&mut limiter));
    }
    limiter.schedule_task(1000);
    for attempt in attempts {
        limiter.release(attempt.finish(TaskResult::TryAgain));
    }
    for task in 0..amount as u64 {
        let attempt = start(&mut limiter);
        assert_eq!(attempt.task(), task);
        limiter.release(attempt.finish(TaskResult::Success));
    }
    assert_eq!(start(&mut limiter).task(), 1000);
}

/// Tasks of all lengths, some of them tried several times: no more than `amount` attempts run
/// within any `per_time`.
#[test]
fn no_more_than_amount_attempts_run_within_per_time() {
    let mut rt = Runtime::new(3, Duration::from_millis(10));
    for (length, failures) in [(0, 0), (4, 2), (0, 1), (25, 0), (1, 3), (0, 0), (12, 1), (3, 0)] {
        rt.schedule_task_with_retry(length, failures);
    }
    for _ in 0..300 {
        rt.yield_now();
        assert!(rt.limiter.in_flight() <= 3);
        rt.advance(1);
    }
    assert_eq!(rt.runs.len(), 15);
    for t in 0..300 {
        let running = rt
            .runs
            .iter()
            .filter(|(_, start, finish)| *start < t + 10 && t <= *finish)
            .count();
        assert!(running <= 3);
    }
    assert_eq!(rt.limiter.in_flight(), 0);
    assert_eq!(rt.limiter.eta(), Some(Duration::zero()));
}

/// Instant tasks start when it was estimated that they would.
#[test]
fn estimate_is_right_for_instant_tasks() {
    let mut rt = Runtime::new(4, Duration::from_millis(7));
    let etas: Vec<Duration> = (0..11).map(|_| rt.schedule_task(0).unwrap()).collect();
    for _ in 0..50 {
        rt.yield_now();
        rt.advance(1);
    }
    for (task, started_at, finished_at) in rt.runs {
        assert_eq!(started_at, finished_at);
        assert_eq!(Duration::from_millis(started_at), etas[task as usize]);
    }
}

/// Instant tasks that are scheduled at any time start as those of a token bucket that starts full.
#[test]
fn instant_attempts_share_a_token_bucket() {
    let mut rt = Runtime::new(2, Duration::from_millis(10));
    let arrivals = [0, 1, 2, 3, 30, 31, 32, 32, 60];
    let mut next = 0;
    for now in 0..80 {
        while next < arrivals.len() && arrivals[next] == now {
            rt.schedule_task(0);
            next += 1;
        }
        rt.yield_now();
        rt.advance(1);
    }
    assert_eq!(rt.started_at, [0, 1, 10, 11, 30, 31, 40, 41, 60]);
}

/// Tasks keep coming, and each of them fails now and then: all of them are done in the end, in the
/// order in which they came where they fail equally often.
#[test]
fn every_task_is_done_though_tasks_keep_coming() {
    let mut rt = Runtime::new(2, Duration::from_millis(3));
    for now in 0..2000 {
        if now % 10 == 0 && now < 1500 {
            rt.schedule_task_with_retry(1, 1);
        }
        rt.yield_now();
        rt.advance(1);
    }
    assert!(rt.succeeded.iter().all(|succeeded| *succeeded));
    assert_eq!(rt.runs.len(), 300);
    assert_eq!(rt.limiter.in_flight(), 0);
}
