//! What an asynchronous limiter keeps track of, and how each event changes it.
use vstd::prelude::*;

use crate::time::MAX_NANOS;
use crate::TaskResult;

verus! {

/// The number of tasks that can wait in a channel.
pub const CHANNEL_CAPACITY: usize = 100;

/// The state of an asynchronous limiter. Tasks are told apart by a number that the caller gives
/// them.
pub struct Schedule {
    /// How many tasks may hold a slot at a time.
    pub amount: nat,
    /// How long a slot stays closed after the task that held it has finished, in nanoseconds.
    pub per_time: nat,
    /// The slots that are free.
    pub free: nat,
    /// Whether the dispatcher has taken a slot for a task that is yet to come.
    pub holding: bool,
    /// The attempts that hold a slot: those that run, and those that have finished and whose
    /// `per_time` has not passed.
    pub in_flight: nat,
    /// The tasks that are to be tried again, in the order in which they will be.
    pub retries: Seq<u64>,
    /// The tasks that have not been tried yet, in the order in which they were scheduled.
    pub fresh: Seq<u64>,
    /// The tasks that have been scheduled and are not done.
    pub queued: nat,
}

impl Schedule {
    /// A limiter to which nothing has happened yet.
    pub open spec fn new(amount: nat, per_time: nat) -> Schedule {
        Schedule {
            amount,
            per_time,
            free: amount,
            holding: false,
            in_flight: 0,
            retries: Seq::empty(),
            fresh: Seq::empty(),
            queued: 0,
        }
    }

    /// What holds of every limiter.
    pub open spec fn wf(self) -> bool {
        // Each slot is free, held by the dispatcher or held by an attempt.
        &&& self.amount > 0
        &&& self.free + (if self.holding { 1nat } else { 0 }) + self.in_flight == self.amount
        // Each task that is not done is in a queue or holds a slot.
        &&& self.queued == self.fresh.len() + self.retries.len() + self.in_flight
        &&& self.fresh.len() <= CHANNEL_CAPACITY
        // A task that has not been tried yet starts only where none is to be tried again.
        &&& self.retries.len() + self.in_flight <= self.amount
    }

    /// There are never many batches of tasks ahead of a new one.
    pub proof fn lemma_few_batches(self)
        requires
            self.wf(),
        ensures
            self.queued / self.amount <= CHANNEL_CAPACITY + 1,
    {
        let batches = (CHANNEL_CAPACITY + 1) as nat;
        assert(self.queued <= batches * self.amount) by (nonlinear_arith)
            requires
                self.queued + 1 <= batches + self.amount,
                self.amount > 0,
                batches > 0,
        ;
        assert(self.queued / self.amount <= batches) by (nonlinear_arith)
            requires
                self.queued <= batches * self.amount,
                self.amount > 0,
        ;
    }

    /// Whether no further task can be scheduled for now.
    pub open spec fn full(self) -> bool {
        self.fresh.len() >= CHANNEL_CAPACITY
    }

    /// The estimated time until a task that is scheduled now starts, in nanoseconds: `per_time` for
    /// each `amount` of tasks that are ahead of it.
    pub open spec fn eta(self) -> nat {
        self.per_time * (self.queued / self.amount)
    }

    /// The estimate can be told as a span, unless `per_time` is out of all proportion.
    pub open spec fn eta_bounded(self) -> bool {
        self.per_time * (CHANNEL_CAPACITY + 1) <= MAX_NANOS ==> self.eta() <= MAX_NANOS
    }

    /// There are never so many batches of tasks ahead of a new one that the estimate would be out
    /// of range for an ordinary `per_time`.
    pub proof fn lemma_eta_bounded(self)
        requires
            self.wf(),
        ensures
            self.eta_bounded(),
    {
        self.lemma_few_batches();
        let p = self.per_time;
        let batches = self.queued / self.amount;
        assert(p * batches <= p * (CHANNEL_CAPACITY + 1)) by (nonlinear_arith)
            requires
                batches <= CHANNEL_CAPACITY + 1,
        ;
    }

    /// The tasks that wait, in the order in which they will start.
    pub open spec fn line(self) -> Seq<u64> {
        self.retries + self.fresh
    }

    /// `task` has been scheduled.
    pub open spec fn scheduled(self, task: u64) -> Schedule {
        Schedule { fresh: self.fresh.push(task), queued: self.queued + 1, ..self }
    }

    /// Whether a slot is there for a task to start in.
    pub open spec fn has_slot(self) -> bool {
        self.holding || self.free > 0
    }

    /// Whether a task can start.
    pub open spec fn can_start(self) -> bool {
        self.has_slot() && self.line().len() > 0
    }

    /// The dispatcher has taken a slot, where there is one, and in it has started the first task
    /// in line, where there is one.
    pub open spec fn dispatched(self) -> Schedule {
        if !self.has_slot() {
            self
        } else {
            let free = if self.holding {
                self.free
            } else {
                (self.free - 1) as nat
            };
            if self.line().len() == 0 {
                Schedule { free, holding: true, ..self }
            } else {
                Schedule {
                    free,
                    holding: false,
                    in_flight: self.in_flight + 1,
                    retries: if self.retries.len() > 0 {
                        self.retries.drop_first()
                    } else {
                        self.retries
                    },
                    fresh: if self.retries.len() > 0 {
                        self.fresh
                    } else {
                        self.fresh.drop_first()
                    },
                    ..self
                }
            }
        }
    }

    /// `per_time` has passed since an attempt at `task` came to `result`: its slot is free again,
    /// and the task is done or is to be tried again.
    pub open spec fn released(self, task: u64, result: TaskResult) -> Schedule {
        let closed = Schedule {
            free: self.free + 1,
            in_flight: (self.in_flight - 1) as nat,
            ..self
        };
        match result {
            TaskResult::Success => Schedule { queued: (self.queued - 1) as nat, ..closed },
            TaskResult::TryAgain => Schedule { retries: self.retries.push(task), ..closed },
        }
    }

    /// A task is refused only where a hundred tasks that have not been tried yet are waiting, whatever
    /// slots are held, and in order there are never more of them.
    pub proof fn law_refused_only_behind_a_hundred(self)
        ensures
            self.fresh.len() < 100 ==> !self.full(),
            self.fresh.len() >= 100 ==> self.full(),
            self.wf() ==> (self.full() <==> self.fresh.len() == 100),
    {
    }

    /// A task that is started before it has been tried makes room for another one, and nothing else
    /// does: neither a start of a task that is to be tried again nor the release of a slot changes
    /// whether there is room.
    pub proof fn law_room_is_made_by_starts(self, task: u64, result: TaskResult)
        requires
            self.fresh.len() <= 100,
        ensures
            (self.holding || self.free > 0) && self.retries.len() == 0 && self.fresh.len() > 0
                ==> !self.dispatched().full(),
            self.retries.len() > 0 ==> self.dispatched().full() == self.full(),
            self.released(task, result).full() == self.full(),
            !self.full() ==> (self.scheduled(task).full() <==> self.fresh.len() == 99),
    {
    }

    /// What every limiter is like: there are as many slots as were asked for, each of them free or
    /// held once, and each task that is not done waits in line or holds a slot.
    pub proof fn law_slots_and_tasks_add_up(self)
        requires
            self.wf(),
        ensures
            !self.holding ==> self.free + self.in_flight == self.amount,
            self.holding ==> self.free + self.in_flight + 1 == self.amount,
            self.queued == self.line().len() + self.in_flight,
            self.has_slot() <==> self.in_flight < self.amount,
            self.fresh.len() <= 100,
            self.retries.len() <= self.amount,
    {
    }

    /// A limiter that asks for at least one slot, whose slots and tasks add up, in which no more than
    /// a hundred tasks that have not been tried wait, and no more tasks that have been tried wait or
    /// hold a slot than there are slots, is in order: nothing else is asked of it.
    pub proof fn law_in_order_where_slots_and_tasks_add_up(self)
        requires
            self.amount > 0,
            self.holding ==> self.free + self.in_flight + 1 == self.amount,
            !self.holding ==> self.free + self.in_flight == self.amount,
            self.queued == self.fresh.len() + self.retries.len() + self.in_flight,
            self.fresh.len() <= 100,
            self.retries.len() + self.in_flight <= self.amount,
        ensures
            self.wf(),
    {
    }

    /// A new limiter has `amount` slots, all of them free, and no task.
    pub proof fn law_new(amount: nat, per_time: nat)
        ensures
            ({
                let new = Schedule::new(amount, per_time);
                &&& new.amount == amount
                &&& new.per_time == per_time
                &&& new.free == amount
                &&& !new.holding
                &&& new.in_flight == 0
                &&& new.retries.len() == 0
                &&& new.fresh.len() == 0
                &&& new.queued == 0
            }),
    {
    }

    /// A task that is scheduled stands at the end of the line, behind all that waited before, and
    /// changes nothing else but the number of tasks that are not done.
    pub proof fn law_scheduled_task_goes_to_the_end(self, task: u64)
        ensures
            ({
                let after = self.scheduled(task);
                &&& after.line().len() == self.line().len() + 1
                &&& after.line().last() == task
                &&& after.line().drop_last() == self.line()
                &&& after.fresh.len() == self.fresh.len() + 1
                &&& after.fresh.last() == task
                &&& after.fresh.drop_last() == self.fresh
                &&& after.retries == self.retries
                &&& after.queued == self.queued + 1
                &&& after.amount == self.amount
                &&& after.per_time == self.per_time
                &&& after.free == self.free
                &&& after.holding == self.holding
                &&& after.in_flight == self.in_flight
            }),
    {
        let after = self.scheduled(task);
        assert(after.line().drop_last() =~= self.line());
        assert(after.fresh.drop_last() =~= self.fresh);
    }

    /// The tasks that are to be tried again come first in line, and behind them come those that have
    /// not been tried, either of them in the order in which they came.
    pub proof fn law_line(self, i: int)
        ensures
            self.line().len() == self.retries.len() + self.fresh.len(),
            0 <= i < self.retries.len() ==> self.line()[i] == self.retries[i],
            0 <= i < self.fresh.len() ==> self.line()[self.retries.len() + i] == self.fresh[i],
    {
    }

    /// Whether a task starts is a matter of slots and tasks alone: it does just where a slot is held
    /// for it or free, and a task waits.
    pub proof fn law_starts_where_slot_and_task_meet(self)
        ensures
            self.has_slot() <==> self.holding || self.free > 0,
            self.can_start() <==> (self.holding || self.free > 0) && self.retries.len()
                + self.fresh.len() > 0,
    {
    }

    /// What a step of the dispatcher does. Without a slot it does nothing. With a slot and no task it
    /// takes the slot, or keeps the one that it has taken before. With a slot and a task it hands the
    /// slot to the first task in line, which stood before what is in line afterwards.
    pub proof fn law_dispatched(self)
        ensures
            ({
                let after = self.dispatched();
                let slot = self.holding || self.free > 0;
                let waiting = self.retries.len() + self.fresh.len();
                &&& after.amount == self.amount
                &&& after.per_time == self.per_time
                &&& after.queued == self.queued
                &&& !slot ==> {
                    &&& after.free == self.free
                    &&& after.holding == self.holding
                    &&& after.in_flight == self.in_flight
                }
                &&& !slot || waiting == 0 ==> {
                    &&& after.retries == self.retries
                    &&& after.fresh == self.fresh
                    &&& after.in_flight == self.in_flight
                }
                &&& slot && self.holding ==> after.free == self.free
                &&& slot && !self.holding ==> after.free + 1 == self.free
                &&& slot && waiting == 0 ==> after.holding
                &&& slot && waiting > 0 ==> {
                    &&& !after.holding
                    &&& after.in_flight == self.in_flight + 1
                    &&& self.line() == seq![self.line()[0]] + after.line()
                }
                &&& slot && self.retries.len() > 0 ==> {
                    &&& self.retries == seq![self.retries[0]] + after.retries
                    &&& after.fresh == self.fresh
                }
                &&& slot && self.retries.len() == 0 && self.fresh.len() > 0 ==> {
                    &&& self.fresh == seq![self.fresh[0]] + after.fresh
                    &&& after.retries == self.retries
                }
            }),
    {
        let after = self.dispatched();
        if self.can_start() {
            assert(self.line() =~= seq![self.line()[0]] + after.line());
            if self.retries.len() > 0 {
                assert(self.retries =~= seq![self.retries[0]] + after.retries);
            } else {
                assert(self.fresh =~= seq![self.fresh[0]] + after.fresh);
            }
        }
    }

    /// What the release of a slot does. There is one more free slot, and one attempt less that holds
    /// one. A task that is done is no longer counted, and one that is to be tried again is, and waits
    /// behind those that were to be tried again before.
    pub proof fn law_released(self, task: u64, result: TaskResult)
        requires
            self.in_flight > 0,
            self.queued > 0,
        ensures
            ({
                let after = self.released(task, result);
                &&& after.amount == self.amount
                &&& after.per_time == self.per_time
                &&& after.free == self.free + 1
                &&& after.holding == self.holding
                &&& after.in_flight + 1 == self.in_flight
                &&& after.fresh == self.fresh
                &&& result is Success ==> {
                    &&& after.queued + 1 == self.queued
                    &&& after.retries == self.retries
                }
                &&& result is TryAgain ==> {
                    &&& after.queued == self.queued
                    &&& after.retries.len() == self.retries.len() + 1
                    &&& after.retries.last() == task
                    &&& after.retries.drop_last() == self.retries
                }
            }),
    {
        let after = self.released(task, result);
        if result is TryAgain {
            assert(after.retries.drop_last() =~= self.retries);
        }
    }

    /// A task that is scheduled behind `batches` times `amount` tasks, and behind fewer than one
    /// `amount` more, is estimated to start after `batches` times `per_time`.
    pub proof fn law_eta_counts_batches(self, batches: nat)
        requires
            self.amount > 0,
            batches * self.amount <= self.queued < (batches + 1) * self.amount,
        ensures
            self.eta() == batches * self.per_time,
    {
        let (queued, amount, per_time) = (self.queued as int, self.amount as int, self.per_time);
        let quotient = self.queued / self.amount;
        assert(quotient == batches) by {
            assert(queued / amount == batches) by (nonlinear_arith)
                requires
                    amount > 0,
                    batches * amount <= queued < (batches + 1) * amount,
            ;
        }
        assert(per_time * quotient == batches * per_time) by (nonlinear_arith)
            requires
                quotient == batches,
        ;
    }

    /// `amount` tasks more put the estimate off by `per_time`.
    pub proof fn law_eta_grows_with_each_batch(self, other: Schedule)
        requires
            self.amount > 0,
            other.amount == self.amount,
            other.per_time == self.per_time,
            other.queued == self.queued + self.amount,
        ensures
            other.eta() == self.eta() + self.per_time,
    {
        let (queued, amount, per_time) = (self.queued as int, self.amount as int, self.per_time);
        let (few, many) = (self.queued / self.amount, other.queued / other.amount);
        assert((queued + amount) / amount == queued / amount + 1) by (nonlinear_arith)
            requires
                amount > 0,
        ;
        assert(per_time * many == per_time * few + per_time) by (nonlinear_arith)
            requires
                many == few + 1,
        ;
    }

    /// The estimate can be told as a span wherever 101 times `per_time` can, and nothing is said of
    /// it elsewhere.
    pub proof fn law_eta_bounded(self)
        ensures
            self.per_time * 101 > MAX_NANOS ==> self.eta_bounded(),
            self.per_time * 101 <= MAX_NANOS ==> (self.eta_bounded() <==> self.eta() <= MAX_NANOS),
    {
    }

    /// Every event keeps the state in order.
    pub proof fn law_stays_in_order(self, task: u64, result: TaskResult)
        requires
            self.wf(),
        ensures
            !self.full() ==> self.scheduled(task).wf(),
            self.dispatched().wf(),
            self.in_flight > 0 ==> self.released(task, result).wf(),
    {
    }

    /// A task that is to be tried again goes ahead of every task that has not been tried yet, and
    /// to the front of the line unless others are to be tried again before it. The slot that it
    /// held is free for the first in line.
    pub proof fn law_retried_task_goes_to_the_front(self, task: u64)
        requires
            self.wf(),
            self.in_flight > 0,
        ensures
            ({
                let after = self.released(task, TaskResult::TryAgain);
                &&& after.line() == self.retries.push(task) + self.fresh
                &&& self.retries.len() == 0 ==> after.line() == seq![task] + self.line()
                &&& after.can_start()
                &&& after.queued == self.queued
            }),
    {
        let after = self.released(task, TaskResult::TryAgain);
        assert(after.line() =~= self.retries.push(task) + self.fresh);
        if self.retries.len() == 0 {
            assert(after.line() =~= seq![task] + self.line());
        }
    }

    /// A start takes the first task out of the line and leaves the others as they are.
    pub proof fn law_first_in_line_starts(self)
        requires
            self.can_start(),
        ensures
            self.dispatched().line() == self.line().drop_first(),
            self.dispatched().in_flight == self.in_flight + 1,
    {
        assert(self.dispatched().line() =~= self.line().drop_first());
    }

    /// While fewer tasks than there are slots have been scheduled and are not done, a new one is
    /// estimated to start at once.
    pub proof fn law_no_wait_below_amount(self)
        requires
            self.wf(),
            self.queued < self.amount,
        ensures
            self.eta() == 0,
    {
        assert(self.queued / self.amount == 0) by (nonlinear_arith)
            requires
                self.queued < self.amount,
        ;
    }
}

} // verus!
