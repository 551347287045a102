//! A fixed-capacity FIFO ring buffer.
use vstd::prelude::*;

verus! {

/// A ring buffer of `N` slots; it holds at most `N - 1` values.
pub struct RingBuffer<T, const N: usize> {
    read_idx: usize,
    write_idx: usize,
    buf: Vec<T>,
}

#[derive(PartialEq, Eq, Debug, Structural)]
pub enum RingBufferError {
    BufferFull,
    BufferEmpty,
}

impl RingBufferError {
    /// The name of the error.
    pub fn to_string(&self) -> (r: String)
        ensures
            r@ == (match self {
                RingBufferError::BufferFull => "BufferFull"@,
                RingBufferError::BufferEmpty => "BufferEmpty"@,
            }),
    {
        match self {
            RingBufferError::BufferFull => String::from_str("BufferFull"),
            RingBufferError::BufferEmpty => String::from_str("BufferEmpty"),
        }
    }
}

impl<T: Copy, const N: usize> RingBuffer<T, N> {
    /// The buffer's invariant: both indices lie in the `N` slots.
    pub closed spec fn wf(&self) -> bool {
        &&& N > 0
        &&& self.buf@.len() == N
        &&& self.read_idx < N
        &&& self.write_idx < N
    }

    /// The number of values held.
    pub closed spec fn len_spec(&self) -> nat {
        if self.write_idx >= self.read_idx {
            (self.write_idx - self.read_idx) as nat
        } else {
            (N - self.read_idx + self.write_idx) as nat
        }
    }

    /// The slot that holds the `i`-th oldest value.
    pub closed spec fn slot_of(&self, i: int) -> int {
        if self.read_idx + i < N {
            self.read_idx + i
        } else {
            self.read_idx + i - N
        }
    }

    /// The values held, oldest first.
    pub closed spec fn view(&self) -> Seq<T> {
        Seq::new(self.len_spec(), |i: int| self.buf@[self.slot_of(i)])
    }

    pub closed spec fn read_idx_spec(&self) -> usize {
        self.read_idx
    }

    pub closed spec fn write_idx_spec(&self) -> usize {
        self.write_idx
    }

    /// The value in slot `i`.
    pub closed spec fn slot(&self, i: int) -> T {
        self.buf@[i]
    }

    pub fn new() -> (r: Self)
        where T: Default,
        requires
            N > 0,
        ensures
            r.wf(),
            r@ == Seq::<T>::empty(),
            r.read_idx_spec() == 0,
            r.write_idx_spec() == 0,
    {
        let mut buf: Vec<T> = Vec::new();
        let mut i: usize = 0;
        while i < N
            invariant
                i <= N,
                buf@.len() == i,
            decreases N - i,
        {
            buf.push(T::default());
            i = i + 1;
        }
        Self { read_idx: 0, write_idx: 0, buf }
    }

    /// Whether the buffer holds `N - 1` values.
    pub fn is_full(&self) -> (r: bool)
        requires
            self.wf(),
        ensures
            r == (self@.len() == N - 1),
    {
        proof {
            lemma_inc_mod(self.write_idx as int, N as int);
        }
        self.write_idx.wrapping_add(1) % N == self.read_idx
    }

    pub fn is_empty(&self) -> (r: bool)
        requires
            self.wf(),
        ensures
            r == (self@.len() == 0),
    {
        self.write_idx == self.read_idx
    }

    pub fn read_idx(&self) -> (r: usize)
        ensures
            r == self.read_idx_spec(),
    {
        self.read_idx
    }

    pub fn write_idx(&self) -> (r: usize)
        ensures
            r == self.write_idx_spec(),
    {
        self.write_idx
    }

    /// Appends `b`, unless the buffer is full.
    pub fn put(&mut self, b: T) -> (r: Result<(), RingBufferError>)
        requires
            old(self).wf(),
        ensures
            final(self).wf(),
            old(self)@.len() == N - 1 ==> r == Err::<(), RingBufferError>(
                RingBufferError::BufferFull,
            ) && final(self)@ == old(self)@,
            old(self)@.len() < N - 1 ==> r is Ok && final(self)@ == old(self)@.push(b),
            final(self).read_idx_spec() == old(self).read_idx_spec(),
    {
        if self.is_full() {
            return Err(RingBufferError::BufferFull);
        }
        let ghost old_view = self@;
        proof {
            lemma_inc_mod(self.write_idx as int, N as int);
        }
        self.buf.set(self.write_idx, b);
        self.write_idx = self.write_idx.wrapping_add(1) % N;
        assert(self@ =~= old_view.push(b));
        Ok(())
    }

    /// Removes and returns the oldest value, unless the buffer is empty.
    pub fn get(&mut self) -> (r: Result<T, RingBufferError>)
        requires
            old(self).wf(),
        ensures
            final(self).wf(),
            old(self)@.len() == 0 ==> r == Err::<T, RingBufferError>(RingBufferError::BufferEmpty)
                && final(self)@ == old(self)@,
            old(self)@.len() > 0 ==> r == Ok::<T, RingBufferError>(old(self)@[0]) && final(self)@
                == old(self)@.drop_first(),
            final(self).write_idx_spec() == old(self).write_idx_spec(),
    {
        if self.is_empty() {
            return Err(RingBufferError::BufferEmpty);
        }
        let ghost old_view = self@;
        proof {
            lemma_inc_mod(self.read_idx as int, N as int);
        }
        let ret = self.buf[self.read_idx];
        self.read_idx = self.read_idx.wrapping_add(1) % N;
        assert(self@ =~= old_view.drop_first());
        Ok(ret)
    }

    /// The value in slot `idx % N`.
    pub fn index(&self, idx: usize) -> (r: &T)
        requires
            self.wf(),
        ensures
            *r == self.slot((idx % N) as int),
    {
        &self.buf[idx % N]
    }

    pub fn iter(&self) -> (r: RingBufIterator<'_, T, N>)
        requires
            self.wf(),
        ensures
            r.idx_spec() == self.read_idx_spec(),
            r.idx_spec() < N,
            r.buffer() == self,
            r.remaining() == self@,
    {
        let r = RingBufIterator::new(self);
        assert(r.remaining() =~= self@);
        r
    }
}

/// Stepping an index below `n` one slot on, modulo `n`.
proof fn lemma_inc_mod(x: int, n: int)
    requires
        0 <= x < n,
    ensures
        (x + 1) % n == if x + 1 == n { 0 } else { x + 1 },
{
    if x + 1 == n {
        vstd::arithmetic::div_mod::lemma_mod_self_0(n);
    } else {
        vstd::arithmetic::div_mod::lemma_small_mod((x + 1) as nat, n as nat);
    }
}

/// Walks the values of a ring buffer from the oldest on.
pub struct RingBufIterator<'a, T, const N: usize> {
    buf: &'a RingBuffer<T, N>,
    idx: usize,
}

impl<'a, T: Copy, const N: usize> RingBufIterator<'a, T, N> {
    pub closed spec fn idx_spec(&self) -> usize {
        self.idx
    }

    pub closed spec fn buffer(&self) -> &'a RingBuffer<T, N> {
        self.buf
    }

    /// The number of values still to come.
    closed spec fn count(&self) -> nat {
        let w = self.buf.write_idx_spec();
        if w >= self.idx {
            (w - self.idx) as nat
        } else {
            (N - self.idx + w) as nat
        }
    }

    /// The values still to come, in the order they come.
    pub closed spec fn remaining(&self) -> Seq<T> {
        Seq::new(
            self.count(),
            |i: int| self.buf.slot(if self.idx + i < N { self.idx + i } else { self.idx + i - N }),
        )
    }

    pub fn new(buf: &'a RingBuffer<T, N>) -> (r: Self)
        ensures
            r.idx_spec() == buf.read_idx_spec(),
            r.buffer() == buf,
    {
        Self { buf, idx: buf.read_idx() }
    }

    /// The value at the iterator's position, unless it has reached the write index.
    pub fn next(&mut self) -> (r: Option<&'a T>)
        requires
            old(self).buffer().wf(),
            old(self).idx_spec() < N,
        ensures
            final(self).buffer() == old(self).buffer(),
            final(self).idx_spec() < N,
            old(self).idx_spec() == old(self).buffer().write_idx_spec() ==> r is None
                && final(self).idx_spec() == old(self).idx_spec(),
            old(self).idx_spec() != old(self).buffer().write_idx_spec() ==> r == Some(
                &old(self).buffer().slot(old(self).idx_spec() as int),
            ) && final(self).idx_spec() == (old(self).idx_spec() + 1) % (N as int),
            old(self).remaining().len() == 0 ==> r is None && final(self).remaining().len() == 0,
            old(self).remaining().len() > 0 ==> r == Some(&old(self).remaining()[0]) && final(self).remaining()
                == old(self).remaining().drop_first(),
    {
        let ghost before = *self;
        proof {
            lemma_inc_mod(self.idx as int, N as int);
            vstd::arithmetic::div_mod::lemma_small_mod(self.idx as nat, N as nat);
        }
        if self.idx != self.buf.write_idx() {
            let result = self.buf.index(self.idx);
            self.idx = (self.idx + 1) % N;
            proof {
                assert(self.remaining() =~= before.remaining().drop_first());
            }
            Some(result)
        } else {
            None
        }
    }
}

} // verus!
