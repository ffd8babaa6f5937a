# Ritlers

A task-length aware rate limiter, useful for calling APIs that apply strict rate limiting. Written in
Rust and verified with Verus.

Most rate limiters count when a task *starts*. Because network requests have variable latency, this
can still cause bursts to arrive at a downstream server simultaneously. Ritlers instead waits for
each task to *finish* before its slot becomes available again, so the rate limit is respected
regardless of how long individual requests take.

## Layout

- `src/`: the verified library.
  - `blocking`: the limiter for tasks that run one after the other. Its state is modelled in
    `window`, with the laws that hold for every sequence of tasks.
  - `async_rt`: the limiter for tasks that run side by side, as a state machine that an asynchronous
    runtime drives. Its state is modelled in `schedule`; `history` holds the laws for everything
    that can happen to it, `numbering` tells its tasks apart, and `progress` says what they come to in
    the end. The slots are a tokio semaphore (`slots`) and the tasks wait in tokio
    channels (`queue`).
  - `time`: spans, points in time and the clock.
- `app/`: the limiters as a program uses them, with `std::thread::sleep` and with tokio tasks.
- `tests/`: the library's tests.

## What is proved

- No more than `amount` tasks run within any `per_time`, however long each of them takes
  (`window::law_rate_limit`, `History::law_rate_limit`). This takes for granted that the clock does
  not go backwards, that a pause lasts as long as it was told to, and that a slot is released only
  when its interval has passed. That the blocking limiter runs a task only after its pause, and reads
  the finish time only after the task, is part of its contracts (`RateLimiter::schedule_task`,
  `RateLimiter::run_in_slot`).
- On a new limiter the first `amount` tasks run immediately
  (`window::law_first_tasks_run_immediately`).
- Tasks that are to be tried again are limited like any other
  (`window::law_retries_are_limited_like_tasks`). In the asynchronous limiter they go first and keep
  their order (`History::law_retries_are_not_overtaken`), and new tasks start in the order in which
  they came (`History::law_first_come_first_served`).
- When tasks complete instantly, both limiters are token buckets (`window::law_token_bucket`,
  `History::law_token_bucket`), and the estimate of the asynchronous limiter is exact for tasks that
  are scheduled at once (`History::law_eta_is_right_for_instant_tasks`).
- No slot of the asynchronous limiter idles while tasks wait (`History::law_no_slot_idles`), and
  every task is done in the end, even while others keep coming, provided that the runtime does its
  part and that each task fails only finitely often (`Endless::law_every_task_is_done`).
