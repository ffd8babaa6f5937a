//! A task-length aware rate limiter.
//!
//! Most rate limiters count when a task *starts*. Because network requests have variable latency,
//! this can still cause bursts to arrive at a downstream API simultaneously. **Ritlers** instead
//! waits for each task to *finish* before its slot becomes available again, so the rate limit is
//! respected regardless of how long individual requests take.
//!
//! When tasks complete instantly the behaviour is identical to a standard token-bucket limiter.
//!
//! There are two limiters: [`blocking::RateLimiter`] for a caller that runs its tasks one after the
//! other, and [`async_rt::RateLimiter`] for tasks that run side by side. Both decide when a task may
//! run; neither sleeps nor runs a thread of its own. What they keep track of is modelled in
//! [`window`] and [`schedule`], and what follows for everything that can happen to them is proved
//! in [`window`], [`history`], [`numbering`] and [`progress`].

pub mod async_rt;
pub mod blocking;
pub mod history;
pub mod numbering;
pub mod progress;
pub mod queue;
pub mod schedule;
pub mod slots;
pub mod time;
pub mod window;

use vstd::prelude::*;

verus! {

/// The outcome of a retryable task.
///
/// When it is [`TryAgain`](TaskResult::TryAgain), the task is re-queued and will run again as soon
/// as the next rate-limit slot is free. Retried tasks are prioritised over newly scheduled tasks.
#[derive(Debug, PartialEq, Eq, Structural)]
pub enum TaskResult {
    /// The task completed successfully; release the slot.
    Success,
    /// The task should be retried at the next available slot.
    TryAgain,
}

#[allow(non_upper_case_globals)]
impl TaskResult {
    /// The task is done; another name for [`TaskResult::Success`].
    pub const Done: TaskResult = TaskResult::Success;
}

/// A task that is done has completed successfully.
pub proof fn law_done_is_success()
    ensures
        TaskResult::Done is Success,
{
}

/// A limiter was asked for that allows no task at all.
#[derive(Clone, Copy, Debug, PartialEq, Eq, Structural)]
pub struct ZeroAmountError;

} // verus!
