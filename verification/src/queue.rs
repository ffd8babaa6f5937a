//! The tasks that wait for a slot, kept in bounded tokio channels.
use std::collections::VecDeque;

use vstd::prelude::*;

use crate::slots::MAX_PERMITS;

verus! {

/// tokio's sending half of a bounded channel. What the channel holds is told by
/// [`channel_state`].
#[verifier::external_type_specification]
#[verifier::external_body]
#[verifier::reject_recursive_types(T)]
pub struct ExSender<T>(tokio::sync::mpsc::Sender<T>);

/// tokio's receiving half of a bounded channel. What the channel holds is told by
/// [`channel_state`].
#[verifier::external_type_specification]
#[verifier::external_body]
#[verifier::reject_recursive_types(T)]
pub struct ExReceiver<T>(tokio::sync::mpsc::Receiver<T>);

/// The capacity of a channel and the messages in it, the one that was sent first in front. `None`
/// unless the two are the halves of one channel that has no other sender, has not been closed and
/// in which no room is reserved.
pub uninterp spec fn channel_state(
    sender: tokio::sync::mpsc::Sender<u64>,
    receiver: tokio::sync::mpsc::Receiver<u64>,
) -> Option<(nat, Seq<u64>)>;

/// `tokio::sync::mpsc::channel`: a channel without messages that can buffer `capacity` of them. It
/// panics for a capacity of zero or of more than `tokio::sync::Semaphore::MAX_PERMITS`.
#[verifier::external_body]
fn open_channel(capacity: usize) -> (halves: (
    tokio::sync::mpsc::Sender<u64>,
    tokio::sync::mpsc::Receiver<u64>,
))
    requires
        0 < capacity <= MAX_PERMITS,
    ensures
        channel_state(halves.0, halves.1) == Some((capacity as nat, Seq::<u64>::empty())),
{
    tokio::sync::mpsc::channel(capacity)
}

/// `tokio::sync::mpsc::Sender::try_send`: puts a message behind the others, unless the channel is
/// full. `receiver` is there to say which channel is meant, and that nobody receives meanwhile.
#[verifier::external_body]
fn try_send(
    sender: &mut tokio::sync::mpsc::Sender<u64>,
    receiver: &tokio::sync::mpsc::Receiver<u64>,
    message: u64,
) -> (sent: bool)
    requires
        channel_state(*old(sender), *receiver) is Some,
    ensures
        ({
            let (capacity, messages) = channel_state(*old(sender), *receiver)->0;
            &&& sent == (messages.len() < capacity)
            &&& channel_state(*final(sender), *receiver) == Some(
                (capacity, if sent { messages.push(message) } else { messages }),
            )
        }),
{
    sender.try_send(message).is_ok()
}

/// `tokio::sync::mpsc::Receiver::try_recv`: takes out the first message, unless the channel is
/// empty. `sender` is there to say which channel is meant, and that nobody sends meanwhile.
#[verifier::external_body]
fn try_recv(
    sender: &tokio::sync::mpsc::Sender<u64>,
    receiver: &mut tokio::sync::mpsc::Receiver<u64>,
) -> (message: Option<u64>)
    requires
        channel_state(*sender, *old(receiver)) is Some,
    ensures
        ({
            let (capacity, messages) = channel_state(*sender, *old(receiver))->0;
            if messages.len() == 0 {
                &&& message is None
                &&& channel_state(*sender, *final(receiver)) == Some((capacity, messages))
            } else {
                &&& message == Some(messages[0])
                &&& channel_state(*sender, *final(receiver)) == Some(
                    (capacity, messages.drop_first()),
                )
            }
        }),
{
    receiver.try_recv().ok()
}

/// A first-in, first-out queue of tasks that holds no more than its capacity. The view is the tasks
/// in it, the one that came first in front.
pub struct TaskQueue {
    sender: tokio::sync::mpsc::Sender<u64>,
    receiver: tokio::sync::mpsc::Receiver<u64>,
}

impl TaskQueue {
    /// The two halves belong together, and the channel holds no more than it can.
    pub closed spec fn wf(self) -> bool {
        &&& channel_state(self.sender, self.receiver) is Some
        &&& self@.len() <= self.capacity()
    }

    /// How many tasks the queue can hold.
    pub closed spec fn capacity(self) -> nat {
        channel_state(self.sender, self.receiver).unwrap().0
    }
}

impl View for TaskQueue {
    type V = Seq<u64>;

    closed spec fn view(&self) -> Seq<u64> {
        channel_state(self.sender, self.receiver).unwrap().1
    }
}

impl TaskQueue {
    /// An empty queue.
    pub fn new(capacity: usize) -> (queue: TaskQueue)
        requires
            0 < capacity <= MAX_PERMITS,
        ensures
            queue.wf(),
            queue.capacity() == capacity,
            queue@ == Seq::<u64>::empty(),
    {
        let (sender, receiver) = open_channel(capacity);
        TaskQueue { sender, receiver }
    }

    /// Puts a task at the end of the queue. Returns whether there was room for it.
    pub fn push(&mut self, task: u64) -> (pushed: bool)
        requires
            old(self).wf(),
        ensures
            final(self).wf(),
            final(self).capacity() == old(self).capacity(),
            pushed == (old(self)@.len() < old(self).capacity()),
            final(self)@ == if pushed { old(self)@.push(task) } else { old(self)@ },
    {
        try_send(&mut self.sender, &self.receiver, task)
    }

    /// Takes out the task at the front of the queue.
    pub fn pop(&mut self) -> (task: Option<u64>)
        requires
            old(self).wf(),
        ensures
            final(self).wf(),
            final(self).capacity() == old(self).capacity(),
            task is None <==> old(self)@.len() == 0,
            task matches Some(first) ==> first == old(self)@[0],
            final(self)@ == if old(self)@.len() == 0 { old(self)@ } else { old(self)@.drop_first() },
    {
        try_recv(&self.sender, &mut self.receiver)
    }
}

/// The tasks that wait for a slot: those that are to be tried again, and those that have not been
/// tried yet.
pub struct Line {
    retry_queue: TaskQueue,
    /// Tasks that are to be tried again and wait for room in `retry_queue`, in the order in which
    /// they will get it.
    waiting_retries: VecDeque<u64>,
    task_queue: TaskQueue,
}

impl Line {
    /// The tasks that are to be tried again, the one whose turn is next in front.
    pub closed spec fn retries(self) -> Seq<u64> {
        self.retry_queue@ + self.waiting_retries@
    }

    /// The tasks that have not been tried yet, the one that was scheduled first in front.
    pub closed spec fn fresh(self) -> Seq<u64> {
        self.task_queue@
    }

    /// How many tasks that have not been tried yet can wait.
    pub closed spec fn capacity(self) -> nat {
        self.task_queue.capacity()
    }

    /// No task waits for room where there is room.
    pub closed spec fn wf(self) -> bool {
        &&& self.retry_queue.wf()
        &&& self.task_queue.wf()
        &&& self.retry_queue.capacity() > 0
        &&& self.waiting_retries@.len() > 0 ==> self.retry_queue@.len()
            == self.retry_queue.capacity()
    }

    /// A line in which nobody waits, with two channels of the given capacity.
    pub fn new(capacity: usize) -> (line: Line)
        requires
            0 < capacity <= MAX_PERMITS,
        ensures
            line.wf(),
            line.capacity() == capacity,
            line.retries() == Seq::<u64>::empty(),
            line.fresh() == Seq::<u64>::empty(),
    {
        let line = Line {
            retry_queue: TaskQueue::new(capacity),
            waiting_retries: VecDeque::new(),
            task_queue: TaskQueue::new(capacity),
        };
        assert(line.retries() =~= Seq::<u64>::empty());
        line
    }

    /// Puts a new task at the end of the line. Returns whether there was room for it.
    pub fn join(&mut self, task: u64) -> (joined: bool)
        requires
            old(self).wf(),
        ensures
            final(self).wf(),
            final(self).capacity() == old(self).capacity(),
            final(self).retries() == old(self).retries(),
            joined == (old(self).fresh().len() < old(self).capacity()),
            final(self).fresh() == if joined {
                old(self).fresh().push(task)
            } else {
                old(self).fresh()
            },
    {
        self.task_queue.push(task)
    }

    /// Puts a task that is to be tried again behind the others of its kind, ahead of every new one.
    pub fn rejoin(&mut self, task: u64)
        requires
            old(self).wf(),
        ensures
            final(self).wf(),
            final(self).capacity() == old(self).capacity(),
            final(self).retries() == old(self).retries().push(task),
            final(self).fresh() == old(self).fresh(),
    {
        if !self.retry_queue.push(task) {
            self.waiting_retries.push_back(task);
        }
        assert(self.retries() =~= old(self).retries().push(task));
    }

    /// Takes the first task out of the line: one that is to be tried again, if there is any.
    pub fn next(&mut self) -> (task: Option<u64>)
        requires
            old(self).wf(),
        ensures
            final(self).wf(),
            final(self).capacity() == old(self).capacity(),
            old(self).retries().len() > 0 ==> {
                &&& task == Some(old(self).retries()[0])
                &&& final(self).retries() == old(self).retries().drop_first()
                &&& final(self).fresh() == old(self).fresh()
            },
            old(self).retries().len() == 0 && old(self).fresh().len() > 0 ==> {
                &&& task == Some(old(self).fresh()[0])
                &&& final(self).retries() == old(self).retries()
                &&& final(self).fresh() == old(self).fresh().drop_first()
            },
            old(self).retries().len() == 0 && old(self).fresh().len() == 0 ==> {
                &&& task is None
                &&& final(self).retries() == old(self).retries()
                &&& final(self).fresh() == old(self).fresh()
            },
    {
        match self.retry_queue.pop() {
            Some(task) => {
                if let Some(waiting) = self.waiting_retries.pop_front() {
                    let room = self.retry_queue.push(waiting);
                    assert(room);
                }
                assert(self.retries() =~= old(self).retries().drop_first());
                Some(task)
            },
            None => self.task_queue.pop(),
        }
    }
}

} // verus!
