//! A readers-writer lock: a reader takes one permit of a semaphore with
//! `usize::MAX` permits, a writer takes them all.
use vstd::prelude::*;
use crate::semaphore::{next_index, Permit, Semaphore, SemaphoreError, Waiter};

verus! {

/// A value behind a readers-writer lock.
pub struct RwLock<T> {
    state: Semaphore,
    value: T,
}

/// Read access: one permit.
pub struct ReadGuard {
    permit: Permit,
}

impl ReadGuard {
    /// The permits the guard holds.
    pub closed spec fn permits(&self) -> usize {
        self.permit.count()
    }
}

/// Write access: every permit.
pub struct WriteGuard {
    permit: Permit,
}

impl WriteGuard {
    /// The permits the guard holds.
    pub closed spec fn permits(&self) -> usize {
        self.permit.count()
    }
}

impl<T> RwLock<T> {
    /// The semaphore hands out every permit to one writer.
    pub open spec fn wf(&self) -> bool {
        self.state_spec().max_permits_spec() == usize::MAX
    }

    pub closed spec fn state_spec(&self) -> Semaphore {
        self.state
    }

    pub closed spec fn value_spec(&self) -> T {
        self.value
    }

    /// An unlocked lock on `val`.
    pub fn new(val: T) -> (r: Self)
        ensures
            r.wf(),
            r.value_spec() == val,
            r.state_spec().permits_spec() == usize::MAX,
            r.state_spec().max_permits_spec() == usize::MAX,
            !r.state_spec().closed_spec(),
    {
        Self { state: Semaphore::new(usize::MAX), value: val }
    }

    /// Takes a place in line for reading.
    pub fn read(&mut self) -> (r: Result<Waiter, ()>)
        requires
            old(self).wf(),
        ensures
            final(self).wf(),
            r matches Ok(w) && w.permits == 1 && w.turn == old(self).state_spec().waiter_idx_spec(),
            final(self).state_spec().waiter_idx_spec() == next_index(old(self).state_spec().waiter_idx_spec()),
            final(self).state_spec().permits_spec() == old(self).state_spec().permits_spec(),
            final(self).value_spec() == old(self).value_spec(),
    {
        match self.state.acquire(1) {
            Ok(w) => Ok(w),
            Err(_) => Err(()),
        }
    }

    /// Takes a place in line for writing.
    pub fn write(&mut self) -> (r: Result<Waiter, ()>)
        requires
            old(self).wf(),
        ensures
            final(self).wf(),
            r matches Ok(w) && w.permits == usize::MAX && w.turn == old(self).state_spec().waiter_idx_spec(),
            final(self).state_spec().waiter_idx_spec() == next_index(old(self).state_spec().waiter_idx_spec()),
            final(self).state_spec().permits_spec() == old(self).state_spec().permits_spec(),
            final(self).value_spec() == old(self).value_spec(),
    {
        match self.state.acquire(usize::MAX) {
            Ok(w) => Ok(w),
            Err(_) => Err(()),
        }
    }

    /// One look by a reader in line: read access once it is its turn and a
    /// permit is left.
    pub fn poll_read(&mut self, waiter: &Waiter) -> (r: Option<Result<ReadGuard, ()>>)
        requires
            old(self).wf(),
            waiter.permits == 1,
        ensures
            final(self).wf(),
            final(self).value_spec() == old(self).value_spec(),
            (r matches Some(Ok(_))) <==> (!old(self).state_spec().closed_spec()
                && old(self).state_spec().current_waiter_spec() == waiter.turn && old(self).state_spec().permits_spec() >= 1),
            r matches Some(Ok(g)) ==> final(self).state_spec().permits_spec() == old(self).state_spec().permits_spec() - 1
                && g.permits() == 1,
    {
        match self.state.poll_acquire(waiter) {
            None => None,
            Some(Ok(permit)) => Some(Ok(ReadGuard { permit })),
            Some(Err(_)) => Some(Err(())),
        }
    }

    /// One look by a writer in line: write access once it is its turn and
    /// no permit is out.
    pub fn poll_write(&mut self, waiter: &Waiter) -> (r: Option<Result<WriteGuard, ()>>)
        requires
            old(self).wf(),
            waiter.permits == usize::MAX,
        ensures
            final(self).wf(),
            final(self).value_spec() == old(self).value_spec(),
            (r matches Some(Ok(_))) <==> (!old(self).state_spec().closed_spec()
                && old(self).state_spec().current_waiter_spec() == waiter.turn && old(self).state_spec().permits_spec() == usize::MAX),
            r matches Some(Ok(g)) ==> final(self).state_spec().permits_spec() == 0 && g.permits() == usize::MAX,
    {
        match self.state.poll_acquire(waiter) {
            None => None,
            Some(Ok(permit)) => Some(Ok(WriteGuard { permit })),
            Some(Err(_)) => Some(Err(())),
        }
    }

    /// Read access now, if a permit is left.
    pub fn try_read(&mut self) -> (r: Result<ReadGuard, ()>)
        requires
            old(self).wf(),
        ensures
            final(self).wf(),
            final(self).value_spec() == old(self).value_spec(),
            r is Ok <==> !old(self).state_spec().closed_spec() && old(self).state_spec().permits_spec() >= 1,
            r is Ok ==> final(self).state_spec().permits_spec() == old(self).state_spec().permits_spec() - 1,
            r matches Ok(g) ==> g.permits() == 1,
            r is Err ==> final(self).state_spec().permits_spec() == old(self).state_spec().permits_spec(),
    {
        match self.state.try_acquire(1) {
            Ok(permit) => Ok(ReadGuard { permit }),
            Err(_) => Err(()),
        }
    }

    /// Write access now, if no permit is out.
    pub fn try_write(&mut self) -> (r: Result<WriteGuard, ()>)
        requires
            old(self).wf(),
        ensures
            final(self).wf(),
            final(self).value_spec() == old(self).value_spec(),
            r is Ok <==> !old(self).state_spec().closed_spec() && old(self).state_spec().permits_spec() == usize::MAX,
            r is Ok ==> final(self).state_spec().permits_spec() == 0,
            r matches Ok(g) ==> g.permits() == usize::MAX,
            r is Err ==> final(self).state_spec().permits_spec() == old(self).state_spec().permits_spec(),
    {
        match self.state.try_acquire(usize::MAX) {
            Ok(permit) => Ok(WriteGuard { permit }),
            Err(_) => Err(()),
        }
    }

    /// The value, for a reader: the guard holds one permit of this lock,
    /// which is then out.
    pub fn value(&self, guard: &ReadGuard) -> (r: &T)
        requires
            guard.permits() == 1,
            self.state_spec().permits_spec() < usize::MAX,
        ensures
            *r == self.value_spec(),
    {
        &self.value
    }

    /// The value, for the writer: the guard holds every permit of this
    /// lock, none of which is then left.
    pub fn value_mut(&mut self, guard: &WriteGuard) -> (r: &mut T)
        requires
            guard.permits() == usize::MAX,
            old(self).state_spec().permits_spec() == 0,
        ensures
            *r == old(self).value_spec(),
            final(self).value_spec() == *final(r),
            final(self).state_spec() == old(self).state_spec(),
    {
        &mut self.value
    }

    /// Ends a read: the guard's permit, which is out, comes back.
    pub fn unlock_read(&mut self, guard: ReadGuard)
        requires
            old(self).wf(),
            guard.permits() == 1,
            old(self).state_spec().permits_spec() < usize::MAX,
        ensures
            final(self).wf(),
            final(self).value_spec() == old(self).value_spec(),
            final(self).state_spec().permits_spec() == old(self).state_spec().permits_spec() + 1,
    {
        self.state.release(guard.permit);
    }

    /// Ends a write: every permit, all of them out, comes back.
    pub fn unlock_write(&mut self, guard: WriteGuard)
        requires
            old(self).wf(),
            guard.permits() == usize::MAX,
            old(self).state_spec().permits_spec() == 0,
        ensures
            final(self).wf(),
            final(self).value_spec() == old(self).value_spec(),
            final(self).state_spec().permits_spec() == usize::MAX,
    {
        self.state.release(guard.permit);
    }
}

/// Readers and the writer exclude each other. With `permits` left and
/// `readers` read guards (one permit each) and `writers` write guards (every
/// permit each) out, all of the lock's `usize::MAX` permits accounted for:
/// while a writer holds the lock there is no reader, no other writer and no
/// permit left for a reader, and while a reader holds it no writer can get
/// every permit.
pub proof fn lemma_readers_writer_exclusion(permits: usize, readers: nat, writers: nat)
    requires
        permits + readers + writers * usize::MAX == usize::MAX,
    ensures
        writers > 0 ==> writers == 1 && readers == 0 && permits == 0,
        readers > 0 ==> writers == 0 && permits < usize::MAX,
{
    if writers > 1 {
        assert(writers * usize::MAX >= 2 * usize::MAX) by (nonlinear_arith)
            requires
                writers > 1,
        ;
    }
    if writers == 1 {
        assert(writers * usize::MAX == usize::MAX);
    }
}

} // verus!
