use miniature_os::ringbuffer::{RingBuffer, RingBufferError};

#[test]
fn test_ring_buf_simple() {
    const SIZE: usize = 4096;
    let mut buf = RingBuffer::<u8, SIZE>::new();
    let mut test_buf = [0u8; SIZE];

    for i in 0..SIZE {
        test_buf[i] = i as u8;
    }

    assert!(buf.is_empty());
    assert_eq!(buf.get(), Err(RingBufferError::BufferEmpty));

    for i in 0..SIZE - 1 {
        assert_eq!(buf.put(i as u8), Ok(()));
    }

    assert!(!buf.is_empty());
    assert!(buf.is_full());
    assert_eq!(buf.put(1), Err(RingBufferError::BufferFull));

    for i in 0..SIZE - 1 {
        assert_eq!(buf.get(), Ok(test_buf[i]));
    }

    assert!(buf.is_empty());
    assert_eq!(buf.get(), Err(RingBufferError::BufferEmpty));
}

#[test]
fn test_iterator() {
    const SIZE: usize = 4096;
    let buf = RingBuffer::<usize, SIZE>::new();
    let mut test_buf = [0usize; SIZE];

    for i in 0..SIZE {
        test_buf[i] = i;
    }

    let mut iter = buf.iter();
    let mut i = 0;
    while let Some(val) = iter.next() {
        assert_eq!(test_buf[i], *val);
        i += 1;
    }
}

#[test]
fn ring_buffer_wraps_around_in_fifo_order() {
    let mut buf = RingBuffer::<u32, 4>::new();
    for round in 0..10u32 {
        assert_eq!(buf.put(round), Ok(()));
        assert_eq!(buf.put(round + 100), Ok(()));
        assert_eq!(buf.get(), Ok(round));
        assert_eq!(buf.get(), Ok(round + 100));
    }
    assert!(buf.is_empty());
    assert_eq!(buf.put(1), Ok(()));
    assert_eq!(buf.put(2), Ok(()));
    assert_eq!(buf.put(3), Ok(()));
    assert!(buf.is_full());
    assert_eq!(buf.put(4), Err(RingBufferError::BufferFull));
    let mut iter = buf.iter();
    assert_eq!(iter.next(), Some(&1));
    assert_eq!(iter.next(), Some(&2));
    assert_eq!(iter.next(), Some(&3));
    assert_eq!(iter.next(), None);
    assert_eq!(*buf.index(buf.read_idx()), 1);
}

#[test]
fn ringbuffer_errors_read_by_name() {
    assert_eq!(RingBufferError::BufferFull.to_string(), "BufferFull");
    assert_eq!(RingBufferError::BufferEmpty.to_string(), "BufferEmpty");
}

#[test]
fn iterator_yields_contents_oldest_first() {
    let mut buf = RingBuffer::<u8, 4>::new();
    buf.put(1).unwrap();
    buf.put(2).unwrap();
    buf.put(3).unwrap();
    assert_eq!(buf.get(), Ok(1));
    buf.put(4).unwrap();
    let mut it = buf.iter();
    assert_eq!(it.next(), Some(&2));
    assert_eq!(it.next(), Some(&3));
    assert_eq!(it.next(), Some(&4));
    assert_eq!(it.next(), None);
}
