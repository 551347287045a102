//! A counting semaphore with a line of waiters served in order, and a
//! readers-writer lock on top of it. Each operation is one step on the
//! semaphore's state; waiting for other threads between the steps of an
//! acquisition is left to the caller, which polls until its turn comes.
use vstd::prelude::*;

verus! {

/// Why permits could not be had.
#[derive(Debug, Clone, Copy, PartialEq, Eq, Structural)]
pub enum SemaphoreError {
    Closed,
    InvalidPermits,
    WouldBlock,
}

impl SemaphoreError {
    /// The error in words.
    pub fn to_string(&self) -> (r: String)
        ensures
            r@ == (match self {
                SemaphoreError::Closed => "Closed"@,
                SemaphoreError::InvalidPermits => "Invalid permits"@,
                SemaphoreError::WouldBlock => "Would block"@,
            }),
    {
        match self {
            SemaphoreError::Closed => String::from_str("Closed"),
            SemaphoreError::InvalidPermits => String::from_str("Invalid permits"),
            SemaphoreError::WouldBlock => String::from_str("Would block"),
        }
    }
}

/// Permits held; they go back with `Semaphore::release`.
pub struct Permit {
    permits: usize,
}

impl Permit {
    pub closed spec fn count(&self) -> usize {
        self.permits
    }

    pub fn permits(&self) -> (r: usize)
        ensures
            r == self.count(),
    {
        self.permits
    }
}

/// A place in the line of waiters: the turn it waits for and the permits
/// it wants.
pub struct Waiter {
    pub turn: usize,
    pub permits: usize,
}

/// A counting semaphore: the permits left, whether it is closed, the most
/// permits it hands out at once, the next place in line and the place whose
/// turn it is.
pub struct Semaphore {
    permits: usize,
    closed: bool,
    max_permits: usize,
    waiter_idx: usize,
    current_waiter_idx: usize,
}

/// `x + 1`, wrapping around past `usize::MAX`.
pub open spec fn next_index(x: usize) -> usize {
    if x == usize::MAX {
        0
    } else {
        (x + 1) as usize
    }
}

/// `a + b`, wrapping around past `usize::MAX`.
pub open spec fn wrapping_sum(a: usize, b: usize) -> usize {
    if a + b > usize::MAX {
        (a + b - usize::MAX - 1) as usize
    } else {
        (a + b) as usize
    }
}

impl Semaphore {
    pub closed spec fn permits_spec(&self) -> usize {
        self.permits
    }

    pub closed spec fn closed_spec(&self) -> bool {
        self.closed
    }

    pub closed spec fn max_permits_spec(&self) -> usize {
        self.max_permits
    }

    pub closed spec fn waiter_idx_spec(&self) -> usize {
        self.waiter_idx
    }

    pub closed spec fn current_waiter_spec(&self) -> usize {
        self.current_waiter_idx
    }

    /// An open semaphore with `max_permits` permits and nobody in line.
    pub fn new(max_permits: usize) -> (r: Self)
        ensures
            r.permits_spec() == max_permits,
            !r.closed_spec(),
            r.max_permits_spec() == max_permits,
            r.waiter_idx_spec() == 0,
            r.current_waiter_spec() == 0,
    {
        Self { permits: max_permits, closed: false, max_permits, waiter_idx: 0, current_waiter_idx: 0 }
    }

    /// Closes the semaphore: no permit is handed out any more, and the
    /// count goes back to the maximum.
    pub fn close(&mut self)
        ensures
            final(self).closed_spec(),
            final(self).permits_spec() == old(self).max_permits_spec(),
            final(self).max_permits_spec() == old(self).max_permits_spec(),
            final(self).waiter_idx_spec() == old(self).waiter_idx_spec(),
            final(self).current_waiter_spec() == old(self).current_waiter_spec(),
    {
        self.closed = true;
        self.permits = self.max_permits;
    }

    /// Takes a place in line for `permits` permits; more than the maximum
    /// are refused.
    pub fn acquire(&mut self, permits: usize) -> (r: Result<Waiter, SemaphoreError>)
        ensures
            final(self).permits_spec() == old(self).permits_spec(),
            final(self).closed_spec() == old(self).closed_spec(),
            final(self).max_permits_spec() == old(self).max_permits_spec(),
            final(self).current_waiter_spec() == old(self).current_waiter_spec(),
            permits > old(self).max_permits_spec() ==> r == Err::<Waiter, SemaphoreError>(SemaphoreError::InvalidPermits)
                && final(self).waiter_idx_spec() == old(self).waiter_idx_spec(),
            permits <= old(self).max_permits_spec() ==> (r matches Ok(w) && w.turn == old(self).waiter_idx_spec()
                && w.permits == permits && final(self).waiter_idx_spec() == next_index(old(self).waiter_idx_spec())),
    {
        if permits > self.max_permits {
            return Err(SemaphoreError::InvalidPermits);
        }
        let turn = self.waiter_idx;
        self.waiter_idx = self.waiter_idx.wrapping_add(1);
        Ok(Waiter { turn, permits })
    }

    /// One look by `waiter` at the semaphore: `Closed` once it is closed;
    /// the permits if it is the waiter's turn and there are enough, the
    /// turn then passing to the next in line; otherwise nothing yet.
    pub fn poll_acquire(&mut self, waiter: &Waiter) -> (r: Option<Result<Permit, SemaphoreError>>)
        ensures
            final(self).closed_spec() == old(self).closed_spec(),
            final(self).max_permits_spec() == old(self).max_permits_spec(),
            final(self).waiter_idx_spec() == old(self).waiter_idx_spec(),
            old(self).closed_spec() ==> r == Some(Err::<Permit, SemaphoreError>(SemaphoreError::Closed))
                && final(self).permits_spec() == old(self).permits_spec()
                && final(self).current_waiter_spec() == old(self).current_waiter_spec(),
            !old(self).closed_spec() && old(self).current_waiter_spec() == waiter.turn && old(self).permits_spec() >= waiter.permits
                ==> (r matches Some(Ok(p)) && p.count() == waiter.permits
                && final(self).permits_spec() == old(self).permits_spec() - waiter.permits
                && final(self).current_waiter_spec() == next_index(old(self).current_waiter_spec())),
            !old(self).closed_spec() && !(old(self).current_waiter_spec() == waiter.turn && old(self).permits_spec() >= waiter.permits)
                ==> r is None && final(self).permits_spec() == old(self).permits_spec()
                && final(self).current_waiter_spec() == old(self).current_waiter_spec(),
    {
        if self.closed {
            return Some(Err(SemaphoreError::Closed));
        }
        if self.current_waiter_idx == waiter.turn && self.permits >= waiter.permits {
            self.permits = self.permits - waiter.permits;
            self.current_waiter_idx = self.current_waiter_idx.wrapping_add(1);
            return Some(Ok(Permit { permits: waiter.permits }));
        }
        None
    }

    /// Takes `permits` permits at once if there are enough, whoever waits
    /// in line.
    pub fn try_acquire(&mut self, permits: usize) -> (r: Result<Permit, SemaphoreError>)
        ensures
            final(self).closed_spec() == old(self).closed_spec(),
            final(self).max_permits_spec() == old(self).max_permits_spec(),
            final(self).waiter_idx_spec() == old(self).waiter_idx_spec(),
            final(self).current_waiter_spec() == old(self).current_waiter_spec(),
            permits > old(self).max_permits_spec() ==> r == Err::<Permit, SemaphoreError>(SemaphoreError::InvalidPermits)
                && final(self).permits_spec() == old(self).permits_spec(),
            permits <= old(self).max_permits_spec() && old(self).closed_spec() ==> r == Err::<Permit, SemaphoreError>(
                SemaphoreError::Closed,
            ) && final(self).permits_spec() == old(self).permits_spec(),
            permits <= old(self).max_permits_spec() && !old(self).closed_spec() && old(self).permits_spec() >= permits
                ==> (r matches Ok(p) && p.count() == permits
                && final(self).permits_spec() == old(self).permits_spec() - permits),
            permits <= old(self).max_permits_spec() && !old(self).closed_spec() && old(self).permits_spec() < permits
                ==> r == Err::<Permit, SemaphoreError>(SemaphoreError::WouldBlock)
                && final(self).permits_spec() == old(self).permits_spec(),
    {
        if permits > self.max_permits {
            return Err(SemaphoreError::InvalidPermits);
        }
        if self.closed {
            return Err(SemaphoreError::Closed);
        }
        if self.permits >= permits {
            self.permits = self.permits - permits;
            return Ok(Permit { permits });
        }
        Err(SemaphoreError::WouldBlock)
    }

    /// Adds `permits` permits, wrapping around past `usize::MAX` as the
    /// counter it stands for does.
    pub fn add_permits(&mut self, permits: usize)
        ensures
            final(self).permits_spec() == wrapping_sum(old(self).permits_spec(), permits),
            final(self).closed_spec() == old(self).closed_spec(),
            final(self).max_permits_spec() == old(self).max_permits_spec(),
            final(self).waiter_idx_spec() == old(self).waiter_idx_spec(),
            final(self).current_waiter_spec() == old(self).current_waiter_spec(),
    {
        self.permits = self.permits.wrapping_add(permits);
    }

    /// Gives the permits of `permit` back.
    pub fn release(&mut self, permit: Permit)
        ensures
            final(self).permits_spec() == wrapping_sum(old(self).permits_spec(), permit.count()),
            final(self).closed_spec() == old(self).closed_spec(),
            final(self).max_permits_spec() == old(self).max_permits_spec(),
            final(self).waiter_idx_spec() == old(self).waiter_idx_spec(),
            final(self).current_waiter_spec() == old(self).current_waiter_spec(),
    {
        self.add_permits(permit.permits);
    }

    pub fn is_close(&self) -> (r: bool)
        ensures
            r == self.closed_spec(),
    {
        self.closed
    }
}

/// How many grants must come before the waiter with ticket `turn` is served,
/// the turn being at `current`; tickets wrap around past `usize::MAX`.
pub open spec fn places_ahead(current: usize, turn: usize) -> int {
    if turn >= current {
        turn - current
    } else {
        turn + usize::MAX + 1 - current
    }
}

/// Waiters are served in the order of their tickets: `poll_acquire` grants
/// only the waiter whose ticket is the current turn and then moves the turn
/// on by one place. So of two waiters `a` ahead of `b`, `b` is not served
/// now, and each grant to a waiter other than `a` keeps `a` ahead of `b`,
/// one place closer to its turn.
pub proof fn lemma_ticket_order(current: usize, a: usize, b: usize)
    requires
        places_ahead(current, a) < places_ahead(current, b),
    ensures
        b != current,
        a != current ==> places_ahead(next_index(current), a) == places_ahead(current, a) - 1
            && places_ahead(next_index(current), a) < places_ahead(next_index(current), b),
{
}

/// Tickets are drawn in order: a ticket drawn after another one, with fewer
/// than `usize::MAX` tickets between them and the current turn, comes after it.
pub proof fn lemma_tickets_drawn_in_order(current: usize, first: usize)
    requires
        places_ahead(current, first) < usize::MAX,
    ensures
        places_ahead(current, first) < places_ahead(current, next_index(first)),
{
}

/// The turn after `k` grants, starting from `current`: each grant by
/// `poll_acquire` moves the turn on by one place.
pub open spec fn turn_after(current: usize, k: nat) -> usize
    decreases k,
{
    if k == 0 {
        current
    } else {
        next_index(turn_after(current, (k - 1) as nat))
    }
}

/// Each grant before a waiter's turn brings it one place closer.
proof fn lemma_turn_after(current: usize, turn: usize, k: nat)
    requires
        k <= places_ahead(current, turn),
    ensures
        places_ahead(turn_after(current, k), turn) == places_ahead(current, turn) - k,
    decreases k,
{
    if k > 0 {
        lemma_turn_after(current, turn, (k - 1) as nat);
    }
}

/// Waiters are served in ticket order over any run of grants: of two
/// waiters with `a` ahead of `b`, the turn reaches `a` after exactly
/// `places_ahead(current, a)` grants and is at `b` after none of the
/// grants up to then, so `b` is served only after `a`.
pub proof fn lemma_served_in_ticket_order(current: usize, a: usize, b: usize)
    requires
        places_ahead(current, a) < places_ahead(current, b),
    ensures
        turn_after(current, places_ahead(current, a) as nat) == a,
        forall|k: nat| k <= places_ahead(current, a) ==> #[trigger] turn_after(current, k) != b,
{
    lemma_turn_after(current, a, places_ahead(current, a) as nat);
    assert forall|k: nat| k <= places_ahead(current, a) implies #[trigger] turn_after(current, k) != b by {
        lemma_turn_after(current, b, k);
    }
}

/// Tickets drawn in a run come in order: the ticket drawn `j` draws after
/// `first` is `j` places further back in line, while fewer than
/// `usize::MAX` tickets stand between it and the current turn.
pub proof fn lemma_run_of_tickets(current: usize, first: usize, j: nat)
    requires
        places_ahead(current, first) + j <= usize::MAX,
    ensures
        places_ahead(current, turn_after(first, j)) == places_ahead(current, first) + j,
    decreases j,
{
    if j > 0 {
        lemma_run_of_tickets(current, first, (j - 1) as nat);
    }
}

/// A permit taken and given back leaves the count as it was.
pub proof fn lemma_acquire_release(before: usize, taken: usize)
    requires
        taken <= before,
    ensures
        wrapping_sum((before - taken) as usize, taken) == before,
{
}

} // verus!
