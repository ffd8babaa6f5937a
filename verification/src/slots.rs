//! The slots of a limiter, kept as the permits of a tokio semaphore.
use vstd::prelude::*;

verus! {

/// The most permits that a semaphore can hold, `tokio::sync::Semaphore::MAX_PERMITS`: an eighth of
/// the range of `usize`.
pub const MAX_PERMITS: usize = usize::MAX / 8;

/// A semaphore can hold as many permits as there are positive multiples of eight in the range of `usize`.
pub proof fn law_max_permits()
    ensures
        MAX_PERMITS * 8 <= usize::MAX < (MAX_PERMITS + 1) * 8,
{
}

/// tokio's semaphore. What it holds is told by [`semaphore_permits`].
#[verifier::external_type_specification]
#[verifier::external_body]
pub struct ExSemaphore(tokio::sync::Semaphore);

/// The permits that can be taken from a semaphore, or `None` where it has been closed.
pub uninterp spec fn semaphore_permits(semaphore: tokio::sync::Semaphore) -> Option<nat>;

/// `tokio::sync::Semaphore::new`: an open semaphore that holds `permits`. It panics for more than
/// [`MAX_PERMITS`].
#[verifier::external_body]
fn new_semaphore(permits: usize) -> (semaphore: tokio::sync::Semaphore)
    requires
        permits <= MAX_PERMITS,
    ensures
        semaphore_permits(semaphore) == Some(permits as nat),
{
    tokio::sync::Semaphore::new(permits)
}

/// `tokio::sync::Semaphore::try_acquire`, with `tokio::sync::SemaphorePermit::forget` on what it
/// gives: takes a permit for good where there is one, and leaves the semaphore as it is where there
/// is none. The exclusive reference says that no other permit or waiter is about.
#[verifier::external_body]
fn take_permit(semaphore: &mut tokio::sync::Semaphore) -> (taken: bool)
    requires
        semaphore_permits(*old(semaphore)) is Some,
    ensures
        taken == (semaphore_permits(*old(semaphore))->0 > 0),
        taken ==> semaphore_permits(*final(semaphore)) == Some(
            (semaphore_permits(*old(semaphore))->0 - 1) as nat,
        ),
        !taken ==> semaphore_permits(*final(semaphore)) == semaphore_permits(*old(semaphore)),
{
    match semaphore.try_acquire() {
        Ok(permit) => {
            permit.forget();
            true
        },
        Err(_) => false,
    }
}

/// `tokio::sync::Semaphore::add_permits`: puts `permits` into the semaphore. It panics where there
/// would be more than [`MAX_PERMITS`] then. The exclusive reference says that no waiter is about to
/// whom they could go.
#[verifier::external_body]
fn add_permits(semaphore: &mut tokio::sync::Semaphore, permits: usize)
    requires
        semaphore_permits(*old(semaphore)) is Some,
        semaphore_permits(*old(semaphore))->0 + permits <= MAX_PERMITS,
    ensures
        semaphore_permits(*final(semaphore)) == Some(
            semaphore_permits(*old(semaphore))->0 + permits as nat,
        ),
{
    semaphore.add_permits(permits)
}

/// Slots that are free to be taken. The view is their number.
pub struct Slots {
    semaphore: tokio::sync::Semaphore,
}

impl View for Slots {
    type V = nat;

    closed spec fn view(&self) -> nat {
        semaphore_permits(self.semaphore)->0
    }
}

impl Slots {
    /// The semaphore is open.
    pub closed spec fn wf(self) -> bool {
        semaphore_permits(self.semaphore) is Some
    }

    /// `amount` free slots.
    pub fn new(amount: usize) -> (slots: Slots)
        requires
            amount <= MAX_PERMITS,
        ensures
            slots.wf(),
            slots@ == amount,
    {
        Slots { semaphore: new_semaphore(amount) }
    }

    /// Takes a slot. Returns whether there was one.
    pub fn take(&mut self) -> (taken: bool)
        requires
            old(self).wf(),
        ensures
            final(self).wf(),
            taken == (old(self)@ > 0),
            final(self)@ == if taken { (old(self)@ - 1) as nat } else { old(self)@ },
    {
        take_permit(&mut self.semaphore)
    }

    /// Gives back a slot that was taken.
    pub fn give_back(&mut self)
        requires
            old(self).wf(),
            old(self)@ < MAX_PERMITS,
        ensures
            final(self).wf(),
            final(self)@ == old(self)@ + 1,
    {
        add_permits(&mut self.semaphore, 1)
    }
}

} // verus!
