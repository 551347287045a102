use miniature_os::mpsc_queue::{Links, MpscQueue, TryDequeueError};
use miniature_os::rwlock::RwLock;
use miniature_os::semaphore::{Semaphore, SemaphoreError};

#[test]
fn try_acquire_test() {
    let mut sem = Semaphore::new(1);
    // Another holder takes the only permit first.
    let waiter = sem.acquire(1).unwrap();
    let permit = sem.poll_acquire(&waiter).unwrap().unwrap();
    assert!(matches!(sem.try_acquire(1), Err(SemaphoreError::WouldBlock)));
    sem.release(permit);
    assert!(sem.try_acquire(1).is_ok());
}

#[test]
fn semaphore_refuses_too_many_permits_and_closes() {
    let mut sem = Semaphore::new(5);
    assert!(matches!(sem.try_acquire(6), Err(SemaphoreError::InvalidPermits)));
    assert!(matches!(sem.acquire(6), Err(SemaphoreError::InvalidPermits)));
    let p = sem.try_acquire(3).unwrap();
    assert_eq!(p.permits(), 3);
    sem.close();
    assert!(sem.is_close());
    assert!(matches!(sem.try_acquire(1), Err(SemaphoreError::Closed)));
    let w = sem.acquire(1).unwrap();
    assert!(matches!(sem.poll_acquire(&w), Some(Err(SemaphoreError::Closed))));
}

#[test]
fn waiters_are_served_in_order() {
    let mut sem = Semaphore::new(5);
    let first = sem.acquire(5).unwrap();
    let second = sem.acquire(1).unwrap();
    // Not the second waiter's turn yet.
    assert!(sem.poll_acquire(&second).is_none());
    let p = sem.poll_acquire(&first).unwrap().unwrap();
    // Its turn now, but no permit is left.
    assert!(sem.poll_acquire(&second).is_none());
    sem.release(p);
    let q = sem.poll_acquire(&second).unwrap().unwrap();
    assert_eq!(q.permits(), 1);
}

#[test]
fn readers_share_and_writers_exclude() {
    let mut lock = RwLock::new(10u32);
    let r1 = lock.try_read().unwrap();
    let r2 = lock.try_read().unwrap();
    assert_eq!(*lock.value(&r1), 10);
    assert!(lock.try_write().is_err());
    lock.unlock_read(r1);
    lock.unlock_read(r2);
    let w = lock.try_write().unwrap();
    *lock.value_mut(&w) = 11;
    assert!(lock.try_read().is_err());
    lock.unlock_write(w);
    let r = lock.try_read().unwrap();
    assert_eq!(*lock.value(&r), 11);
}

#[test]
fn rwlock_waiters_take_turns() {
    let mut lock = RwLock::new(0u8);
    let reader = lock.read().unwrap();
    let writer = lock.write().unwrap();
    let g = lock.poll_read(&reader).unwrap().unwrap();
    assert!(lock.poll_write(&writer).is_none());
    lock.unlock_read(g);
    assert!(lock.poll_write(&writer).unwrap().is_ok());
}

#[test]
fn dequeue_empty() {
    let mut queue: MpscQueue<u64> = MpscQueue::new_with_stub(0);
    assert_eq!(queue.dequeue().is_none(), true)
}

#[test]
fn dequeue_busy() {
    let mut queue: MpscQueue<u64> = MpscQueue::new_with_stub(0);

    let consumer = queue.try_consume().expect("Unable to acquire consumer ?");
    assert_eq!(consumer.try_dequeue(&mut queue), Err(TryDequeueError::Empty));

    queue.enqueue(2);

    assert_eq!(queue.try_dequeue(), Err(TryDequeueError::Busy));

    assert_eq!(consumer.try_dequeue(&mut queue), Ok(2));

    assert_eq!(queue.try_dequeue(), Err(TryDequeueError::Busy));

    assert_eq!(consumer.try_dequeue(&mut queue), Err(TryDequeueError::Empty));

    queue.enqueue(2);
    consumer.release(&mut queue);
    assert_eq!(queue.try_dequeue(), Ok(2));
    assert_eq!(queue.try_dequeue(), Err(TryDequeueError::Empty));
}

#[test]
fn queue_is_first_in_first_out() {
    let mut q: MpscQueue<u32> = MpscQueue::new();
    q.enqueue(1);
    q.enqueue(2);
    q.enqueue(3);
    assert_eq!(q.dequeue(), Some(1));
    assert_eq!(q.try_dequeue(), Ok(2));
    assert_eq!(q.dequeue(), Some(3));
    assert!(q.try_consume().is_some());
    let _links = Links::new();
}

#[test]
fn semaphore_errors_read_in_words() {
    assert_eq!(SemaphoreError::Closed.to_string(), "Closed");
    assert_eq!(SemaphoreError::InvalidPermits.to_string(), "Invalid permits");
    assert_eq!(SemaphoreError::WouldBlock.to_string(), "Would block");
}
