//! The limiter for tasks that run side by side.
//!
//! The limiter decides; an asynchronous runtime does the waiting. It runs a dispatcher that asks
//! for the [next step](RateLimiter::dispatch) whenever a task has been scheduled or a slot has been
//! released, and it runs each attempt, sleeps for the attempt's interval and releases its slot.
use vstd::prelude::*;

use crate::queue::Line;
use crate::schedule::{Schedule, CHANNEL_CAPACITY};
use crate::slots::{Slots, MAX_PERMITS};
use crate::time::{Duration, MAX_NANOS};
use crate::TaskResult;

verus! {

/// An attempt at a task, which holds a slot. It is to be run, and then to be
/// [finished](Attempt::finish).
#[derive(Debug)]
pub struct Attempt {
    task: u64,
    interval: Duration,
}

/// An attempt that has finished and still holds its slot. Once its
/// [interval](Cooldown::interval) has passed, the slot is to be
/// [released](RateLimiter::release).
#[derive(Debug)]
pub struct Cooldown {
    task: u64,
    result: TaskResult,
    interval: Duration,
}

impl Attempt {
    /// The task to run.
    pub closed spec fn spec_task(self) -> u64 {
        self.task
    }

    /// How long the slot stays closed once the task has run.
    pub closed spec fn spec_interval(self) -> Duration {
        self.interval
    }

    /// The task to run.
    pub fn task(&self) -> (task: u64)
        ensures
            task == self.spec_task(),
    {
        self.task
    }

    /// The task has run and has come to `result`.
    pub fn finish(self, result: TaskResult) -> (cooldown: Cooldown)
        ensures
            cooldown.spec_task() == self.spec_task(),
            cooldown.spec_result() == result,
            cooldown.spec_interval() == self.spec_interval(),
    {
        Cooldown { task: self.task, result, interval: self.interval }
    }
}

impl Cooldown {
    /// The task that has run.
    pub closed spec fn spec_task(self) -> u64 {
        self.task
    }

    /// What the task came to.
    pub closed spec fn spec_result(self) -> TaskResult {
        self.result
    }

    /// How long to sleep before the slot is released.
    pub closed spec fn spec_interval(self) -> Duration {
        self.interval
    }

    /// How long to sleep before the slot is released.
    pub fn interval(&self) -> (interval: Duration)
        ensures
            interval == self.spec_interval(),
    {
        self.interval
    }
}

/// What the dispatcher is to do next.
#[derive(Debug)]
pub enum Dispatch {
    /// Wait until a slot is released.
    AwaitSlot,
    /// Wait until a task is scheduled or is to be tried again.
    AwaitTask,
    /// Run an attempt, and come back for more.
    Start(Attempt),
}

/// Task-length aware rate limiter
///
/// Tasks are told apart by a number that the caller gives them.
pub struct RateLimiter {
    amount: usize,
    per_time: Duration,
    slots: Slots,
    /// Whether a slot has been taken for the next task in line.
    holding: bool,
    in_flight: usize,
    line: Line,
    queued_tasks: usize,
}

impl View for RateLimiter {
    type V = Schedule;

    closed spec fn view(&self) -> Schedule {
        Schedule {
            amount: self.amount as nat,
            per_time: self.per_time@,
            free: self.slots@,
            holding: self.holding,
            in_flight: self.in_flight as nat,
            retries: self.line.retries(),
            fresh: self.line.fresh(),
            queued: self.queued_tasks as nat,
        }
    }
}

impl RateLimiter {
    /// What holds of every limiter.
    pub open spec fn wf(self) -> bool {
        &&& self@.wf()
        &&& self@.eta_bounded()
        &&& self.parts_wf()
    }

    /// The semaphore and the channels are in order.
    pub closed spec fn parts_wf(self) -> bool {
        &&& self.amount <= MAX_PERMITS
        &&& self.slots.wf()
        &&& self.line.wf()
        &&& self.line.capacity() == CHANNEL_CAPACITY
    }

    /// Creates a new task-length aware rate limiter
    ///
    /// `amount`: How many tasks run simultaneously \
    /// `per_time`: Per how many seconds
    ///
    /// # Errors
    ///
    /// Returns `Err(())` if `amount` is zero.
    pub fn new(amount: usize, per_time: Duration) -> (limiter: Result<RateLimiter, ()>)
        requires
            amount <= MAX_PERMITS,
        ensures
            limiter is Err <==> amount == 0,
            limiter matches Ok(limiter) ==> limiter.wf() && limiter@ == Schedule::new(
                amount as nat,
                per_time@,
            ),
    {
        if amount == 0 {
            return Err(());
        }
        let limiter = RateLimiter {
            amount,
            per_time,
            slots: Slots::new(amount),
            holding: false,
            in_flight: 0,
            line: Line::new(CHANNEL_CAPACITY),
            queued_tasks: 0,
        };
        proof {
            limiter@.lemma_eta_bounded();
        }
        Ok(limiter)
    }

    /// The estimated time until a task that is scheduled now starts, or `None` where it is too long
    /// to be told. Assumes all tasks are instant.
    pub fn eta(&self) -> (eta: Option<Duration>)
        requires
            self.wf(),
        ensures
            eta is Some <==> self@.eta() <= MAX_NANOS,
            eta matches Some(eta) ==> eta@ == self@.eta(),
    {
        proof {
            self@.lemma_few_batches();
        }
        let batches_ahead: usize = self.queued_tasks / self.amount;
        self.per_time.checked_mul(batches_ahead as u32)
    }

    /// Puts a task in line and counts it. Returns whether there was room for it; where there was
    /// none, everything is left as it is.
    pub fn enqueue(&mut self, task: u64) -> (enqueued: bool)
        requires
            old(self).wf(),
        ensures
            final(self).wf(),
            enqueued == !old(self)@.full(),
            enqueued <==> old(self)@.fresh.len() < 100,
            final(self)@ == if enqueued {
                old(self)@.scheduled(task)
            } else {
                old(self)@
            },
    {
        if !self.line.join(task) {
            return false;
        }
        self.queued_tasks = self.queued_tasks + 1;
        proof {
            self@.lemma_eta_bounded();
        }
        true
    }

    /// Schedules the given task, every attempt at which succeeds. \
    /// Returns the time until the task starts. \
    /// Assumes all tasks are instant.
    ///
    /// Returns `None`, and leaves everything as it is, where the queue is full: the caller comes
    /// back when a task has been started.
    pub fn schedule_task(&mut self, task: u64) -> (eta: Option<Duration>)
        requires
            old(self).wf(),
            !old(self)@.full() ==> old(self)@.eta() <= MAX_NANOS,
        ensures
            final(self).wf(),
            eta is None <==> old(self)@.full(),
            eta is Some <==> old(self)@.fresh.len() < 100,
            eta is None ==> final(self)@ == old(self)@,
            eta matches Some(eta) ==> eta@ == old(self)@.eta() && final(self)@ == old(
                self,
            )@.scheduled(task),
    {
        let eta = self.eta();
        if self.enqueue(task) {
            eta
        } else {
            None
        }
    }

    /// Schedules a retryable task. If an attempt at it comes to [`TaskResult::TryAgain`], the task
    /// is re-queued and will run again as soon as the next rate-limit slot is available. \
    /// Returns the estimated time until the first attempt starts.
    ///
    /// Returns `None`, and leaves everything as it is, where the queue is full: the caller comes
    /// back when a task has been started.
    pub fn schedule_task_with_retry(&mut self, task: u64) -> (eta: Option<Duration>)
        requires
            old(self).wf(),
            !old(self)@.full() ==> old(self)@.eta() <= MAX_NANOS,
        ensures
            final(self).wf(),
            eta is None <==> old(self)@.full(),
            eta is Some <==> old(self)@.fresh.len() < 100,
            eta is None ==> final(self)@ == old(self)@,
            eta matches Some(eta) ==> eta@ == old(self)@.eta() && final(self)@ == old(
                self,
            )@.scheduled(task),
    {
        let eta = self.eta();
        if self.enqueue(task) {
            eta
        } else {
            None
        }
    }

    /// Takes a slot, and in it starts the first task in line. Only dequeues once a slot is free, so
    /// that retried tasks are preferred over newly scheduled ones.
    pub fn dispatch(&mut self) -> (next: Dispatch)
        requires
            old(self).wf(),
        ensures
            final(self).wf(),
            final(self)@ == old(self)@.dispatched(),
            next is AwaitSlot <==> !old(self)@.has_slot(),
            next is AwaitSlot <==> old(self)@.in_flight == old(self)@.amount,
            next is AwaitTask <==> old(self)@.has_slot() && old(self)@.line().len() == 0,
            next is Start <==> old(self)@.can_start(),
            next matches Dispatch::Start(attempt) ==> attempt.spec_task() == old(self)@.line()[0]
                && attempt.spec_interval()@ == old(self)@.per_time,
            next matches Dispatch::Start(attempt) ==> attempt.spec_task() == if old(
                self,
            )@.retries.len() > 0 {
                old(self)@.retries[0]
            } else {
                old(self)@.fresh[0]
            },
    {
        if !self.holding {
            if !self.slots.take() {
                return Dispatch::AwaitSlot;
            }
            self.holding = true;
        }
        let task = self.line.next();
        if task.is_some() {
            self.holding = false;
            self.in_flight = self.in_flight + 1;
        }
        proof {
            self@.lemma_eta_bounded();
        }
        match task {
            Some(task) => Dispatch::Start(Attempt { task, interval: self.per_time }),
            None => Dispatch::AwaitTask,
        }
    }

    /// Releases the slot of an attempt that finished an interval ago. The task is done, or it is
    /// re-queued ahead of every task that has not been tried yet.
    pub fn release(&mut self, cooldown: Cooldown)
        requires
            old(self).wf(),
            old(self)@.in_flight > 0,
        ensures
            final(self).wf(),
            final(self)@ == old(self)@.released(cooldown.spec_task(), cooldown.spec_result()),
    {
        self.slots.give_back();
        self.in_flight = self.in_flight - 1;
        match cooldown.result {
            TaskResult::Success => {
                self.queued_tasks = self.queued_tasks - 1;
            },
            TaskResult::TryAgain => {
                self.line.rejoin(cooldown.task);
            },
        }
        proof {
            self@.lemma_eta_bounded();
        }
    }

    /// The number of attempts that hold a slot.
    pub fn in_flight(&self) -> (in_flight: usize)
        ensures
            in_flight == self@.in_flight,
    {
        self.in_flight
    }
}

} // verus!
