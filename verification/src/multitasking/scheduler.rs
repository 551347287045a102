//! The scheduler: the thread that runs, the threads ready to run, in the
//! order they get their turn, and the threads that are done and wait to be
//! torn down. Switching the processor from one thread to another is left
//! to the caller, which gets from `schedule` what the switch needs.
use vstd::prelude::*;
use std::collections::VecDeque;
use crate::error::KernelError;
use crate::mpsc_queue::{Consumer, MpscQueue};
use crate::multitasking::thread::{Thread, ThreadRunState};

verus! {

/// A slot for a thread in the queue of finished threads; the empty slot
/// stands in for the queue's stub.
pub struct ThreadEntry {
    inner: Option<Thread>,
}

impl ThreadEntry {
    pub closed spec fn thread(&self) -> Option<Thread> {
        self.inner
    }

    pub fn new(thread: Thread) -> (r: Self)
        ensures
            r.thread() == Some(thread),
    {
        Self { inner: Some(thread) }
    }

    pub fn new_const() -> (r: Self)
        ensures
            r.thread() is None,
    {
        Self { inner: None }
    }

    /// Releases what the thread in the slot holds.
    pub fn finalize(&mut self) -> (r: Result<(), KernelError>)
        requires
            old(self).thread() is Some,
        ensures
            r is Ok,
            final(self).thread() == old(self).thread(),
    {
        match &mut self.inner {
            Some(thread) => thread.finalize(),
            None => Ok(()),
        }
    }
}

/// One switch of the round robin when the running thread goes on: the
/// first in line runs and the one that ran goes to the end of the line.
/// With nobody in line, nothing changes.
pub open spec fn rotate<T>(ready: Seq<T>, running: T) -> (Seq<T>, T) {
    if ready.len() == 0 {
        (ready, running)
    } else {
        (ready.drop_first().push(running), ready[0])
    }
}

/// `n` switches of the round robin in a row.
pub open spec fn rotate_n<T>(ready: Seq<T>, running: T, n: nat) -> (Seq<T>, T)
    decreases n,
{
    if n == 0 {
        (ready, running)
    } else {
        let (r, t) = rotate_n(ready, running, (n - 1) as nat);
        rotate(r, t)
    }
}

/// Where the line stands after `k` switches, for `0 < k <= ready.len()`.
proof fn lemma_rotate_n_prefix<T>(ready: Seq<T>, running: T, k: nat)
    requires
        0 < k <= ready.len(),
    ensures
        rotate_n(ready, running, k) == (ready.skip(k as int) + seq![running] + ready.take(k - 1), ready[k - 1]),
    decreases k,
{
    if k == 1 {
        reveal_with_fuel(rotate_n, 2);
        assert(ready.drop_first().push(running) =~= ready.skip(1) + seq![running] + ready.take(0));
    } else {
        lemma_rotate_n_prefix(ready, running, (k - 1) as nat);
        let line = ready.skip(k - 1) + seq![running] + ready.take(k - 2);
        assert(line[0] == ready[k - 1]);
        assert(line.drop_first().push(ready[k - 2]) =~= ready.skip(k as int) + seq![running] + ready.take(k - 1));
    }
}

/// Round robin: while no thread finishes, the threads in line run one
/// after the other in line order, and after one switch per thread more
/// than there are in line, the line and the running thread are back to
/// where they were.
pub proof fn lemma_round_robin<T>(ready: Seq<T>, running: T)
    ensures
        forall|k: int| 0 <= k < ready.len() ==> (#[trigger] rotate_n(ready, running, (k + 1) as nat)).1 == ready[k],
        rotate_n(ready, running, ready.len() + 1) == (ready, running),
{
    assert forall|k: int| 0 <= k < ready.len() implies (#[trigger] rotate_n(ready, running, (k + 1) as nat)).1 == ready[k] by {
        lemma_rotate_n_prefix(ready, running, (k + 1) as nat);
    }
    if ready.len() == 0 {
        assert(rotate_n(ready, running, 0) == (ready, running));
    } else {
        lemma_rotate_n_prefix(ready, running, ready.len());
        let line = ready.skip(ready.len() as int) + seq![running] + ready.take(ready.len() - 1);
        assert(line[0] == running);
        assert(line.drop_first().push(ready[ready.len() - 1]) =~= ready);
    }
}

/// What switching from one thread to the next needs: the address spaces of
/// both and the stack pointer the next one was switched out with.
pub struct TaskSwitch {
    pub old_cr3: u64,
    pub new_cr3: u64,
    pub new_rsp: u64,
}

/// The threads of the system: the running one, those ready to run, first
/// in line first, and those that finished and wait to be torn down.
pub struct Scheduler {
    ready_threads: VecDeque<Thread>,
    dying_threads: MpscQueue<ThreadEntry>,
    running_thread: Option<Thread>,
    running_thread_is_finished: bool,
}

impl Scheduler {
    /// Every finished thread is in a slot of its own.
    pub open spec fn wf(&self) -> bool {
        forall|i: int| 0 <= i < self.dying().len() ==> (#[trigger] self.dying()[i]).thread() is Some
    }

    pub closed spec fn ready(&self) -> Seq<Thread> {
        self.ready_threads@
    }

    pub closed spec fn dying(&self) -> Seq<ThreadEntry> {
        self.dying_threads.items()
    }

    /// Whether a consumer holds the queue of finished threads.
    pub closed spec fn dying_has_consumer(&self) -> bool {
        self.dying_threads.has_consumer()
    }

    pub closed spec fn running(&self) -> Option<Thread> {
        self.running_thread
    }

    pub closed spec fn running_is_finished(&self) -> bool {
        self.running_thread_is_finished
    }

    /// No thread at all.
    pub fn new() -> (r: Self)
        ensures
            r.ready() == Seq::<Thread>::empty(),
            r.dying() == Seq::<ThreadEntry>::empty(),
            r.running() is None,
            !r.running_is_finished(),
            r.wf(),
    {
        Self {
            ready_threads: VecDeque::new(),
            dying_threads: MpscQueue::new_with_stub(ThreadEntry::new_const()),
            running_thread: None,
            running_thread_is_finished: false,
        }
    }

    /// Puts `thread` at the end of the line.
    pub fn add_thread(&mut self, thread: Thread)
        ensures
            final(self).ready() == old(self).ready().push(thread),
            final(self).dying() == old(self).dying(),
            final(self).running() == old(self).running(),
            final(self).running_is_finished() == old(self).running_is_finished(),
    {
        self.ready_threads.push_back(thread);
    }

    /// Marks the running thread as done: it leaves at the next switch. The
    /// caller then waits for that switch.
    pub fn finish_current_thread(&mut self)
        ensures
            final(self).running_is_finished(),
            final(self).ready() == old(self).ready(),
            final(self).dying() == old(self).dying(),
            final(self).running() == old(self).running(),
    {
        self.running_thread_is_finished = true;
    }

    /// Makes `thread`, marked as running, the running thread.
    pub fn init(&mut self, thread: Thread)
        ensures
            final(self).running() matches Some(t) && t.state_spec() == ThreadRunState::Running
                && t.id_spec() == thread.id_spec() && t.name_spec() == thread.name_spec()
                && t.process_spec() == thread.process_spec() && t.cr3_spec() == thread.cr3_spec()
                && t.mem_regions_spec() == thread.mem_regions_spec()
                && t.last_stack_ptr_spec() == thread.last_stack_ptr_spec()
                && t.priority_spec() == thread.priority_spec() && t.entry_func_spec() == thread.entry_func_spec(),
            final(self).ready() == old(self).ready(),
            final(self).dying() == old(self).dying(),
            final(self).running_is_finished() == old(self).running_is_finished(),
    {
        let mut thread = thread;
        thread.set_state(ThreadRunState::Running);
        self._init(thread);
    }

    /// Makes `thread` the running thread.
    pub fn _init(&mut self, thread: Thread)
        ensures
            final(self).running() == Some(thread),
            final(self).ready() == old(self).ready(),
            final(self).dying() == old(self).dying(),
            final(self).running_is_finished() == old(self).running_is_finished(),
    {
        self.running_thread = Some(thread);
    }

    /// Gives the processor to the first ready thread, if there is one: the
    /// running thread goes to the end of the line, or, if it finished, to
    /// the finished threads. What the switch needs comes back.
    pub fn schedule(&mut self) -> (r: Option<TaskSwitch>)
        requires
            old(self).ready().len() > 0 ==> old(self).running() is Some,
        ensures
            old(self).wf() ==> final(self).wf(),
            old(self).ready().len() == 0 ==> r is None && final(self).ready() == old(self).ready()
                && final(self).dying() == old(self).dying() && final(self).running() == old(self).running()
                && final(self).running_is_finished() == old(self).running_is_finished(),
            old(self).ready().len() > 0 ==> {
                let old_thread = old(self).running()->0;
                let new_thread = old(self).ready()[0];
                &&& r matches Some(s) && s.old_cr3 == old_thread.cr3_spec() && s.new_cr3 == new_thread.cr3_spec()
                    && s.new_rsp == new_thread.last_stack_ptr_spec()
                &&& final(self).running() == Some(new_thread)
                &&& !final(self).running_is_finished()
                &&& old(self).running_is_finished() ==> final(self).ready() == old(self).ready().drop_first()
                    && final(self).dying().len() == old(self).dying().len() + 1
                    && final(self).dying().drop_last() == old(self).dying()
                    && final(self).dying().last().thread() == Some(old_thread)
                &&& !old(self).running_is_finished() ==> final(self).ready() == old(self).ready().drop_first().push(old_thread)
                    && final(self).dying() == old(self).dying()
                    && (final(self).ready(), new_thread) == rotate(old(self).ready(), old_thread)
            },
    {
        match self.ready_threads.pop_front() {
            None => None,
            Some(new_thread) => {
                let old_thread = self.running_thread.take().unwrap();
                let old_cr3 = old_thread.cr3();
                let new_cr3 = new_thread.cr3();
                let new_rsp = new_thread.last_stack_ptr();
                if self.running_thread_is_finished {
                    self.dying_threads.enqueue(ThreadEntry::new(old_thread));
                    self.running_thread_is_finished = false;
                } else {
                    self.ready_threads.push_back(old_thread);
                }
                self.running_thread = Some(new_thread);
                Some(TaskSwitch { old_cr3, new_cr3, new_rsp })
            },
        }
    }

    /// Whether a thread runs.
    pub fn has_running_thread(&self) -> (r: bool)
        ensures
            r == self.running() is Some,
    {
        self.running_thread.is_some()
    }

    /// The running thread, which there must be.
    pub fn current_thread(&self) -> (r: &Thread)
        requires
            self.running() is Some,
        ensures
            Some(*r) == self.running(),
    {
        self.running_thread.as_ref().unwrap()
    }

    /// The running thread, which there must be, to change.
    pub fn current_thread_mut(&mut self) -> (r: &mut Thread)
        requires
            old(self).running() is Some,
        ensures
            Some(*r) == old(self).running(),
            final(self).running() == Some(*final(r)),
            final(self).ready() == old(self).ready(),
            final(self).dying() == old(self).dying(),
            final(self).running_is_finished() == old(self).running_is_finished(),
    {
        self.running_thread.as_mut().unwrap()
    }

    /// The right to tear down finished threads, unless someone holds it.
    pub fn consume_dying_threads(&mut self) -> (r: Option<Consumer>)
        ensures
            final(self).dying() == old(self).dying(),
            final(self).dying_has_consumer(),
            r is Some <==> !old(self).dying_has_consumer(),
            final(self).ready() == old(self).ready(),
            final(self).running() == old(self).running(),
            final(self).running_is_finished() == old(self).running_is_finished(),
    {
        self.dying_threads.try_consume()
    }

    /// The oldest finished thread, taken off its queue by `consumer`.
    pub fn take_dying_thread(&mut self, consumer: &Consumer) -> (r: Option<ThreadEntry>)
        requires
            old(self).wf(),
        ensures
            final(self).wf(),
            old(self).dying().len() == 0 ==> r is None && final(self).dying() == old(self).dying(),
            old(self).dying().len() > 0 ==> r == Some(old(self).dying()[0]) && final(self).dying() == old(self).dying().drop_first(),
            r matches Some(e) ==> e.thread() is Some,
            final(self).dying_has_consumer() == old(self).dying_has_consumer(),
            final(self).ready() == old(self).ready(),
            final(self).running() == old(self).running(),
            final(self).running_is_finished() == old(self).running_is_finished(),
    {
        consumer.dequeue(&mut self.dying_threads)
    }
}

} // verus!
