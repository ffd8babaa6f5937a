//! Spans of time, points in time and the clock that reads them.
//!
//! Both kinds of value are whole numbers of nanoseconds. A point in time is measured from the
//! origin of the [`Clock`] that read it.
use vstd::prelude::*;

verus! {

/// Nanoseconds in one second.
pub const NANOS_PER_SEC: u128 = 1_000_000_000;

/// Nanoseconds in one millisecond.
pub const NANOS_PER_MILLI: u128 = 1_000_000;

/// The longest span, and the latest point in time: 2^64 - 1 seconds and 999_999_999 nanoseconds.
pub const MAX_NANOS: u128 = 18_446_744_073_709_551_615_999_999_999;

/// A span of time, at most [`MAX_NANOS`] nanoseconds long. Its view is its length in nanoseconds.
#[derive(Clone, Copy, Debug, PartialEq, Eq, PartialOrd, Ord)]
pub struct Duration {
    nanos: u128,
}

/// A point in time, as the time that has passed since the origin of a clock.
/// Its view is that time in nanoseconds.
#[derive(Clone, Copy, Debug, PartialEq, Eq, PartialOrd, Ord)]
pub struct Instant {
    nanos: u128,
}

impl View for Duration {
    type V = nat;

    closed spec fn view(&self) -> nat {
        self.nanos as nat
    }
}

impl View for Instant {
    type V = nat;

    closed spec fn view(&self) -> nat {
        self.nanos as nat
    }
}

/// A span holds its length in nanoseconds, so the order of spans, which goes by what they hold, is
/// that of their lengths.
proof fn law_longer_spans_are_greater(a: Duration, b: Duration)
    ensures
        a@ == a.nanos,
        a.nanos <= b.nanos <==> a@ <= b@,
        a == b <==> a@ == b@,
{
}

/// A point in time holds its distance from the origin in nanoseconds, so the order of points, which
/// goes by what they hold, is that in which they come.
proof fn law_later_points_are_greater(a: Instant, b: Instant)
    ensures
        a@ == a.nanos,
        a.nanos <= b.nanos <==> a@ <= b@,
        a == b <==> a@ == b@,
{
}

/// `a - b`, or zero where `b` is the larger.
pub open spec fn saturating_sub(a: nat, b: nat) -> nat {
    if a >= b {
        (a - b) as nat
    } else {
        0
    }
}

/// What is taken away and what is left add up to what there was, unless more is taken away than
/// there was: then nothing is left.
pub proof fn law_what_is_left_adds_up(a: nat, b: nat)
    ensures
        b <= a ==> saturating_sub(a, b) + b == a,
        a <= b ==> saturating_sub(a, b) == 0,
{
}

/// A millisecond is a thousandth of a second, a second has a thousand million nanoseconds, and the
/// longest span falls short of 2^64 seconds by one nanosecond.
pub proof fn law_units()
    ensures
        NANOS_PER_MILLI * 1000 == NANOS_PER_SEC,
        NANOS_PER_SEC == 1_000_000_000,
        MAX_NANOS + 1 == (u64::MAX + 1) * 1_000_000_000,
{
}

impl Duration {
    /// Every span is within the range of the type.
    #[verifier::type_invariant]
    pub open spec fn in_range(self) -> bool {
        self@ <= MAX_NANOS
    }

    /// The empty span.
    pub fn zero() -> (span: Duration)
        ensures
            span@ == 0,
    {
        Duration { nanos: 0 }
    }

    /// The longest span.
    pub fn longest() -> (span: Duration)
        ensures
            span@ == MAX_NANOS,
    {
        Duration { nanos: MAX_NANOS }
    }

    /// The span of `secs` seconds and `nanos` nanoseconds, of which there may be more than a
    /// second's worth.
    pub fn new(secs: u64, nanos: u32) -> (span: Duration)
        requires
            secs * NANOS_PER_SEC + nanos <= MAX_NANOS,
        ensures
            span@ == secs * NANOS_PER_SEC + nanos,
    {
        Duration { nanos: secs as u128 * NANOS_PER_SEC + nanos as u128 }
    }

    /// The span of `secs` seconds.
    pub fn from_secs(secs: u64) -> (span: Duration)
        ensures
            span@ == secs * NANOS_PER_SEC,
    {
        Duration { nanos: secs as u128 * NANOS_PER_SEC }
    }

    /// The span of `millis` milliseconds.
    pub fn from_millis(millis: u64) -> (span: Duration)
        ensures
            span@ == millis * NANOS_PER_MILLI,
    {
        Duration { nanos: millis as u128 * NANOS_PER_MILLI }
    }

    /// The whole seconds of the span.
    pub fn as_secs(&self) -> (secs: u64)
        ensures
            secs == self@ / (NANOS_PER_SEC as nat),
    {
        proof {
            use_type_invariant(self);
        }
        (self.nanos / NANOS_PER_SEC) as u64
    }

    /// The nanoseconds of the span beyond its whole seconds.
    pub fn subsec_nanos(&self) -> (nanos: u32)
        ensures
            nanos == self@ % (NANOS_PER_SEC as nat),
    {
        (self.nanos % NANOS_PER_SEC) as u32
    }

    /// The span repeated `count` times, or `None` where that is out of range.
    pub fn checked_mul(self, count: u32) -> (product: Option<Duration>)
        ensures
            product is Some <==> self@ * count <= MAX_NANOS,
            product matches Some(span) ==> span@ == self@ * count,
    {
        proof {
            use_type_invariant(&self);
        }
        assert(self.nanos * count <= MAX_NANOS * u32::MAX) by (nonlinear_arith)
            requires
                self.nanos <= MAX_NANOS,
                count <= u32::MAX,
        ;
        let nanos: u128 = self.nanos * count as u128;
        if nanos <= MAX_NANOS {
            Some(Duration { nanos })
        } else {
            None
        }
    }
}

impl Instant {
    /// Every point in time is within the range of the type.
    #[verifier::type_invariant]
    pub open spec fn in_range(self) -> bool {
        self@ <= MAX_NANOS
    }

    /// The point that lies `offset` after the clock's origin.
    pub fn after_origin(offset: Duration) -> (instant: Instant)
        ensures
            instant@ == offset@,
    {
        proof {
            use_type_invariant(&offset);
        }
        Instant { nanos: offset.nanos }
    }

    /// How far after the clock's origin the point lies.
    pub fn since_origin(self) -> (offset: Duration)
        ensures
            offset@ == self@,
    {
        proof {
            use_type_invariant(&self);
        }
        Duration { nanos: self.nanos }
    }

    /// The point that lies `span` later, or `None` where that is out of range.
    pub fn checked_add(self, span: Duration) -> (later: Option<Instant>)
        ensures
            later is Some <==> self@ + span@ <= MAX_NANOS,
            later matches Some(instant) ==> instant@ == self@ + span@,
    {
        proof {
            use_type_invariant(&self);
            use_type_invariant(&span);
        }
        let nanos: u128 = self.nanos + span.nanos;
        if nanos <= MAX_NANOS {
            Some(Instant { nanos })
        } else {
            None
        }
    }

    /// The time from `earlier` to this point, or the empty span where `earlier` is the later one.
    pub fn duration_since(self, earlier: Instant) -> (span: Duration)
        ensures
            span@ == saturating_sub(self@, earlier@),
            earlier@ <= self@ ==> earlier@ + span@ == self@,
            self@ <= earlier@ ==> span@ == 0,
    {
        proof {
            use_type_invariant(&self);
        }
        if earlier.nanos <= self.nanos {
            Duration { nanos: self.nanos - earlier.nanos }
        } else {
            Duration { nanos: 0 }
        }
    }
}

/// The point in time that `std::time::Instant` stands for is known to the operating system alone.
#[verifier::external_type_specification]
#[verifier::external_body]
pub struct ExStdInstant(std::time::Instant);

/// `std::time::Instant::now`: reads the machine's monotonic clock. Nothing is claimed of what it
/// shows.
#[verifier::external_body]
fn machine_now() -> std::time::Instant {
    std::time::Instant::now()
}

/// Whether `reading` is one that the machine's clock gave: one that [`machine_now`] returned.
pub closed spec fn is_reading(reading: std::time::Instant) -> bool {
    call_ensures(machine_now, (), reading)
}

/// A reading of the machine's clock is what reading it may return, and nothing is claimed of that.
/// So a value is known to be a reading only where the clock has been read for it.
proof fn law_readings_come_from_the_machine(reading: std::time::Instant)
    ensures
        is_reading(reading) <==> call_ensures(machine_now, (), reading),
{
}

/// The nanoseconds from one reading of the machine's clock to another, zero where the other is the
/// earlier one.
pub uninterp spec fn nanos_between(
    earlier: std::time::Instant,
    later: std::time::Instant,
) -> nat;

/// `std::time::Instant::saturating_duration_since`, in nanoseconds: the time from `earlier` to
/// `later`. It depends on the two readings alone, and is claimed to be within the range of a
/// `std::time::Duration`, which ends at 2^64 - 1 seconds and 999_999_999 nanoseconds.
#[verifier::external_body]
fn nanos_from(earlier: &std::time::Instant, later: &std::time::Instant) -> (nanos: u128)
    ensures
        nanos == nanos_between(*earlier, *later),
        nanos <= MAX_NANOS,
{
    later.saturating_duration_since(*earlier).as_nanos()
}

/// A reading of the machine's monotonic clock, from which later readings are measured.
#[derive(Clone, Copy, Debug)]
pub struct Clock {
    origin: std::time::Instant,
}

impl Clock {
    /// The machine's reading from which this clock counts.
    pub closed spec fn spec_origin(self) -> std::time::Instant {
        self.origin
    }

    /// Whether the clock shows `instant` at some reading of the machine's clock: that many
    /// nanoseconds lie between its origin and the reading.
    pub open spec fn shows(self, instant: nat) -> bool {
        exists|reading: std::time::Instant|
            instant == #[trigger] nanos_between(self.spec_origin(), reading)
    }

    /// Whether the clock showed `instant` when `task` was over. That the reading was made at such a
    /// point cannot be read off its value, so the definition is closed, and
    /// [`now_after`](Clock::now_after) and [`finish_of`](Clock::finish_of) alone yield it.
    pub closed spec fn shows_after<R, F: FnOnce() -> R>(self, instant: nat, task: F) -> bool {
        self.shows(instant) && is_over(task)
    }

    /// What a clock shows is measured time: the nanoseconds from its origin to a reading of the
    /// machine's clock, neither scaled nor shifted. So two clocks with the same origin show the same
    /// at the same reading, and a clock shows nothing that was not measured.
    pub proof fn law_shows_measured_time(
        self,
        other: Clock,
        reading: std::time::Instant,
        instant: nat,
    )
        ensures
            self.shows(nanos_between(self.spec_origin(), reading)),
            self.shows(instant) ==> exists|measured: std::time::Instant| #[trigger]
                nanos_between(self.spec_origin(), measured) == instant,
            self.spec_origin() == other.spec_origin() ==> other.shows(
                nanos_between(self.spec_origin(), reading),
            ),
    {
    }

    /// The span between what a clock shows at two readings is the time by which the machine's clock
    /// measures the last to be further from the clock's origin than the first.
    pub proof fn law_span_between_readings(
        self,
        first: std::time::Instant,
        last: std::time::Instant,
    )
        ensures
            ({
                let from = nanos_between(self.spec_origin(), first);
                let to = nanos_between(self.spec_origin(), last);
                &&& self.shows(from)
                &&& self.shows(to)
                &&& from <= to ==> from + saturating_sub(to, from) == to
                &&& to <= from ==> saturating_sub(to, from) == 0
            }),
    {
    }

    /// A reading that was made when a task was over is a reading, and the task was over.
    pub proof fn law_shows_after_implies_shows<R, F: FnOnce() -> R>(self, instant: nat, task: F)
        requires
            self.shows_after(instant, task),
        ensures
            exists|measured: std::time::Instant| #[trigger]
                nanos_between(self.spec_origin(), measured) == instant,
            exists|result: R| call_ensures(task, (), result),
    {
    }

    /// A clock whose origin is the present.
    pub fn start() -> (clock: Clock)
        ensures
            is_reading(clock.spec_origin()),
    {
        Clock { origin: machine_now() }
    }

    /// The machine's reading from which this clock counts.
    pub fn origin(&self) -> (origin: std::time::Instant)
        ensures
            origin == self.spec_origin(),
    {
        self.origin
    }

    /// The present, as the time that has passed since the clock's origin. Which reading the
    /// machine's clock gives is up to the machine.
    pub fn now(&self) -> (instant: Instant)
        ensures
            self.shows(instant@),
            exists|reading: std::time::Instant|
                is_reading(reading) && instant@ == #[trigger] nanos_between(
                    self.spec_origin(),
                    reading,
                ),
            instant@ <= MAX_NANOS,
    {
        let reading = machine_now();
        let nanos: u128 = nanos_from(&self.origin, &reading);
        assert(nanos == nanos_between(self.spec_origin(), reading));
        Instant { nanos }
    }

    /// The present, at a point where `task` is over.
    pub fn now_after<R, F: FnOnce() -> R>(&self, Ghost(task): Ghost<F>) -> (instant: Instant)
        requires
            is_over(task),
        ensures
            self.shows_after(instant@, task),
            self.shows(instant@),
            exists|reading: std::time::Instant|
                is_reading(reading) && instant@ == #[trigger] nanos_between(
                    self.spec_origin(),
                    reading,
                ),
            instant@ <= MAX_NANOS,
    {
        self.now()
    }

    /// The present, at a point where `task` is over that was scheduled when the clock showed
    /// `scheduled`.
    ///
    /// The machine's clock does not go backwards, so the present is not before `scheduled`. This
    /// function sees to it: should the machine's clock go backwards all the same, time stands still.
    pub fn finish_of<R, F: FnOnce() -> R>(&self, scheduled: Instant, task: Ghost<F>) -> (instant:
        Instant)
        requires
            self.shows(scheduled@),
            exists|result: R| call_ensures(task@, (), result),
        ensures
            self.shows_after(instant@, task@),
            self.shows(instant@),
            scheduled@ <= instant@ <= MAX_NANOS,
            exists|reading: std::time::Instant|
                {
                    &&& is_reading(reading)
                    &&& #[trigger] nanos_between(self.spec_origin(), reading) <= instant@
                    &&& instant@ == nanos_between(self.spec_origin(), reading) || instant@
                        == scheduled@
                },
    {
        proof {
            use_type_invariant(&scheduled);
        }
        let instant = self.now_after(task);
        if instant.nanos < scheduled.nanos {
            scheduled
        } else {
            instant
        }
    }
}

/// What [`Clock::now`] returns is the time that the machine's clock measures from the clock's origin
/// to a reading of it. So what two calls return differs by the difference of two measured times.
pub proof fn law_now_is_measured(clock: Clock, first: Instant, last: Instant)
    requires
        call_ensures(Clock::now, (&clock,), first),
        call_ensures(Clock::now, (&clock,), last),
    ensures
        exists|a: std::time::Instant, b: std::time::Instant|
            {
                let from = #[trigger] nanos_between(clock.spec_origin(), a);
                let to = #[trigger] nanos_between(clock.spec_origin(), b);
                &&& is_reading(a)
                &&& is_reading(b)
                &&& first@ == from
                &&& last@ == to
                &&& last@ - first@ == to - from
            },
{
    let a = choose|a: std::time::Instant|
        is_reading(a) && first@ == #[trigger] nanos_between(clock.spec_origin(), a);
    let b = choose|b: std::time::Instant|
        is_reading(b) && last@ == #[trigger] nanos_between(clock.spec_origin(), b);
    assert(first@ == nanos_between(clock.spec_origin(), a));
    assert(last@ == nanos_between(clock.spec_origin(), b));
}

/// What [`Clock::now_after`] returns is the time that the machine's clock measures from the clock's
/// origin to a reading of it, and the task is over.
pub proof fn law_now_after_is_measured<R, F: FnOnce() -> R>(clock: Clock, task: F, instant: Instant)
    requires
        call_ensures(Clock::now_after::<R, F>, (&clock, Ghost(task)), instant),
    ensures
        exists|reading: std::time::Instant|
            is_reading(reading) && instant@ == #[trigger] nanos_between(
                clock.spec_origin(),
                reading,
            ),
        exists|result: R| call_ensures(task, (), result),
{
}

/// What [`Clock::finish_of`] returns is no earlier than what was read when the task was scheduled. It
/// is a reading of the machine's clock where that is no earlier, and if a wait from the first reading
/// on is over by then, the finish is no earlier than the end of the wait.
pub proof fn law_finish_is_no_earlier_than_before<R, F: FnOnce() -> R>(
    clock: Clock,
    task: F,
    scheduled: Instant,
    finish: Instant,
    wait: nat,
)
    requires
        call_ensures(Clock::now, (&clock,), scheduled),
        call_ensures(Clock::finish_of::<R, F>, (&clock, scheduled, Ghost(task)), finish),
    ensures
        scheduled@ <= finish@,
        exists|reading: std::time::Instant|
            {
                let end = #[trigger] nanos_between(clock.spec_origin(), reading);
                &&& is_reading(reading)
                &&& end <= finish@
                &&& scheduled@ <= end ==> finish@ == end
                &&& scheduled@ + wait <= end ==> scheduled@ + wait <= finish@
            },
{
}

/// Whether `task` comes to a result. Of a task that is not known, this is learnt by running it.
pub open spec fn is_over<R, F: FnOnce() -> R>(task: F) -> bool {
    exists|result: R| call_ensures(task, (), result)
}

/// A task is over just where it has come to some result.
pub proof fn law_over_with_a_result<R, F: FnOnce() -> R>(task: F)
    ensures
        is_over(task) ==> exists|result: R| call_ensures(task, (), result),
        forall|result: R| call_ensures(task, (), result) ==> is_over(task),
{
}

} // verus!
