//! A queue that many producers add to and one consumer at a time takes
//! from, first in first out. Each operation is one step on the queue; a
//! caller that finds the queue busy with another consumer waits and tries
//! again.
use vstd::prelude::*;
use std::collections::VecDeque;

verus! {

/// The link a queued element carries; this queue keeps its elements in
/// order itself, so the link holds nothing.
pub struct Links {
    linked: bool,
}

impl Links {
    pub fn new() -> (r: Self)
        ensures
            !r.is_linked_spec(),
    {
        Self { linked: false }
    }

    pub closed spec fn is_linked_spec(&self) -> bool {
        self.linked
    }
}

/// Why nothing was taken from the queue.
#[derive(Debug, Clone, Copy, PartialEq, Eq, Structural)]
pub enum TryDequeueError {
    /// The queue is empty.
    Empty,
    /// A producer is halfway through adding an element.
    Inconsistent,
    /// Another consumer holds the queue.
    Busy,
}

/// The right to take elements from a queue, held by one consumer at a time.
pub struct Consumer {
    token: (),
}

impl Consumer {
    /// The right to consume; `MpscQueue::try_consume` hands it out.
    pub fn new() -> (r: Self) {
        Self { token: () }
    }

    /// Takes the first element of `q`, whose consumer this is.
    pub fn dequeue<T>(&self, q: &mut MpscQueue<T>) -> (r: Option<T>)
        ensures
            old(q).items().len() == 0 ==> r is None && final(q).items() == old(q).items(),
            old(q).items().len() > 0 ==> r == Some(old(q).items()[0]) && final(q).items() == old(q).items().drop_first(),
            final(q).has_consumer() == old(q).has_consumer(),
    {
        q.take_front()
    }

    /// Takes the first element of `q`, whose consumer this is, or says the
    /// queue is empty.
    pub fn try_dequeue<T>(&self, q: &mut MpscQueue<T>) -> (r: Result<T, TryDequeueError>)
        ensures
            old(q).items().len() == 0 ==> r == Err::<T, TryDequeueError>(TryDequeueError::Empty) && final(q).items() == old(q).items(),
            old(q).items().len() > 0 ==> r == Ok::<T, TryDequeueError>(old(q).items()[0]) && final(q).items() == old(q).items().drop_first(),
            final(q).has_consumer() == old(q).has_consumer(),
    {
        match q.take_front() {
            Some(item) => Ok(item),
            None => Err(TryDequeueError::Empty),
        }
    }

    /// Gives the right to consume `q` back.
    pub fn release<T>(self, q: &mut MpscQueue<T>)
        ensures
            !final(q).has_consumer(),
            final(q).items() == old(q).items(),
    {
        q.has_consumer = false;
    }
}

/// A first-in first-out queue with at most one consumer at a time.
pub struct MpscQueue<T> {
    items: VecDeque<T>,
    stub: Option<T>,
    has_consumer: bool,
}

impl<T> MpscQueue<T> {
    /// The elements, first out first.
    pub closed spec fn items(&self) -> Seq<T> {
        self.items@
    }

    /// Whether a consumer holds the queue.
    pub closed spec fn has_consumer(&self) -> bool {
        self.has_consumer
    }

    /// An empty queue with its stub element made by `Default`.
    pub fn new() -> (r: Self)
        where
            T: Default,
        ensures
            r.items() == Seq::<T>::empty(),
            !r.has_consumer(),
    {
        Self::new_with_stub(T::default())
    }

    /// An empty queue with the stub element `stub`, which stands for the
    /// end of the queue and is never handed out.
    pub fn new_with_stub(stub: T) -> (r: Self)
        ensures
            r.items() == Seq::<T>::empty(),
            !r.has_consumer(),
    {
        Self { items: VecDeque::new(), stub: Some(stub), has_consumer: false }
    }

    /// Adds `element` at the end.
    pub fn enqueue(&mut self, element: T)
        ensures
            final(self).items() == old(self).items().push(element),
            final(self).has_consumer() == old(self).has_consumer(),
    {
        self.items.push_back(element);
    }

    fn take_front(&mut self) -> (r: Option<T>)
        ensures
            old(self).items().len() == 0 ==> r is None && final(self).items() == old(self).items(),
            old(self).items().len() > 0 ==> r == Some(old(self).items()[0]) && final(self).items() == old(self).items().drop_first(),
            final(self).has_consumer() == old(self).has_consumer(),
    {
        self.items.pop_front()
    }

    /// Takes the first element unless another consumer holds the queue.
    pub fn try_dequeue(&mut self) -> (r: Result<T, TryDequeueError>)
        ensures
            final(self).has_consumer() == old(self).has_consumer(),
            old(self).has_consumer() ==> r == Err::<T, TryDequeueError>(TryDequeueError::Busy) && final(self).items() == old(self).items(),
            !old(self).has_consumer() && old(self).items().len() == 0 ==> r == Err::<T, TryDequeueError>(TryDequeueError::Empty)
                && final(self).items() == old(self).items(),
            !old(self).has_consumer() && old(self).items().len() > 0 ==> r == Ok::<T, TryDequeueError>(old(self).items()[0])
                && final(self).items() == old(self).items().drop_first(),
    {
        if self.has_consumer {
            return Err(TryDequeueError::Busy);
        }
        match self.take_front() {
            Some(item) => Ok(item),
            None => Err(TryDequeueError::Empty),
        }
    }

    /// Takes the first element, if any; no other consumer may hold the
    /// queue, as the caller would wait for it.
    pub fn dequeue(&mut self) -> (r: Option<T>)
        requires
            !old(self).has_consumer(),
        ensures
            !final(self).has_consumer(),
            old(self).items().len() == 0 ==> r is None && final(self).items() == old(self).items(),
            old(self).items().len() > 0 ==> r == Some(old(self).items()[0]) && final(self).items() == old(self).items().drop_first(),
    {
        match self.try_dequeue() {
            Ok(item) => Some(item),
            Err(_) => None,
        }
    }

    /// The right to consume the queue, unless another consumer holds it.
    pub fn try_consume(&mut self) -> (r: Option<Consumer>)
        ensures
            final(self).items() == old(self).items(),
            final(self).has_consumer(),
            r is Some <==> !old(self).has_consumer(),
    {
        if self.has_consumer {
            return None;
        }
        self.has_consumer = true;
        Some(Consumer::new())
    }
}

/// The queue is first in, first out: what is enqueued later comes out
/// after every element already in the queue, which come out in their order.
pub proof fn lemma_fifo<T>(items: Seq<T>, later: Seq<T>)
    ensures
        (items + later).take(items.len() as int) == items,
        (items + later).skip(items.len() as int) == later,
{
    assert((items + later).take(items.len() as int) =~= items);
    assert((items + later).skip(items.len() as int) =~= later);
}

} // verus!
