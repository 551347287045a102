//! The threads that keep the system going: the idle thread, which runs
//! when nothing else can, and the finalizer, which tears finished threads
//! down.
use vstd::prelude::*;
use crate::error::KernelError;
use crate::manager::MemoryManager;
use crate::multitasking::process::{kernel_thread_spawn, spawn_kernel_thread, ProcessId, ThreadId};
use crate::mpsc_queue::Consumer;
use crate::multitasking::scheduler::Scheduler;
use crate::multitasking::thread::{ThreadPriority, ThreadRunState};

verus! {

/// How many finished threads the finalizer tears down before it waits.
pub const FINALIZER_BATCH: usize = 3;

/// Spawns the idle thread, named `Idle`, with the lowest priority, to start
/// at `entry`.
pub fn spawn_idle_thread(
    entry: u64,
    process: ProcessId,
    cr3: u64,
    next_thread_id: &mut u64,
    manager: &mut MemoryManager,
    scheduler: &mut Scheduler,
) -> (r: Result<ThreadId, KernelError>)
    requires
        old(manager).kernel_page_table_spec() is Some,
        old(manager).region_tree_spec().wf(),
    ensures
        kernel_thread_spawn(
            *old(manager),
            *final(manager),
            *old(scheduler),
            *final(scheduler),
            *old(next_thread_id),
            *final(next_thread_id),
            "Idle"@,
            entry,
            ThreadPriority::Idle,
            process,
            cr3,
            r,
        ),
        r is Err ==> final(scheduler).ready() == old(scheduler).ready(),
        r matches Ok(id) ==> id.value() == *old(next_thread_id) && final(scheduler).ready().drop_last() == old(scheduler).ready()
            && final(scheduler).ready().last().name_spec() == seq!['I', 'd', 'l', 'e']
            && final(scheduler).ready().last().priority_spec() == ThreadPriority::Idle
            && final(scheduler).ready().last().entry_func_spec() == entry,
        final(scheduler).running() == old(scheduler).running(),
{
    let name = "Idle".to_owned();
    proof {
        reveal_strlit("Idle");
    }
    spawn_kernel_thread(name, entry, ThreadPriority::Idle, process, cr3, next_thread_id, manager, scheduler)
}

/// Spawns the finalizer thread, named `Finalizer`, with low priority, to
/// start at `entry`.
pub fn spawn_finalizer_thread(
    entry: u64,
    process: ProcessId,
    cr3: u64,
    next_thread_id: &mut u64,
    manager: &mut MemoryManager,
    scheduler: &mut Scheduler,
) -> (r: Result<ThreadId, KernelError>)
    requires
        old(manager).kernel_page_table_spec() is Some,
        old(manager).region_tree_spec().wf(),
    ensures
        kernel_thread_spawn(
            *old(manager),
            *final(manager),
            *old(scheduler),
            *final(scheduler),
            *old(next_thread_id),
            *final(next_thread_id),
            "Finalizer"@,
            entry,
            ThreadPriority::Low,
            process,
            cr3,
            r,
        ),
        r is Err ==> final(scheduler).ready() == old(scheduler).ready(),
        r matches Ok(id) ==> id.value() == *old(next_thread_id) && final(scheduler).ready().drop_last() == old(scheduler).ready()
            && final(scheduler).ready().last().name_spec() == seq!['F', 'i', 'n', 'a', 'l', 'i', 'z', 'e', 'r']
            && final(scheduler).ready().last().priority_spec() == ThreadPriority::Low
            && final(scheduler).ready().last().entry_func_spec() == entry,
        final(scheduler).running() == old(scheduler).running(),
{
    let name = "Finalizer".to_owned();
    proof {
        reveal_strlit("Finalizer");
    }
    spawn_kernel_thread(name, entry, ThreadPriority::Low, process, cr3, next_thread_id, manager, scheduler)
}

/// One round of the finalizer, which consumes the queue of finished
/// threads with `consumer`: tears down up to `FINALIZER_BATCH` of them,
/// oldest first, and says how many it took.
pub fn reap_dying_threads(scheduler: &mut Scheduler, consumer: &Consumer) -> (r: usize)
    requires
        old(scheduler).wf(),
    ensures
        final(scheduler).wf(),
        r == if old(scheduler).dying().len() < FINALIZER_BATCH { old(scheduler).dying().len() } else { FINALIZER_BATCH as nat },
        final(scheduler).dying() == old(scheduler).dying().skip(r as int),
        final(scheduler).ready() == old(scheduler).ready(),
        final(scheduler).running() == old(scheduler).running(),
        final(scheduler).running_is_finished() == old(scheduler).running_is_finished(),
{
    let mut taken: usize = 0;
    assert(scheduler.dying().skip(0) =~= scheduler.dying());
    while taken < FINALIZER_BATCH
        invariant
            taken <= FINALIZER_BATCH,
            taken <= old(scheduler).dying().len(),
            scheduler.wf(),
            scheduler.dying() == old(scheduler).dying().skip(taken as int),
            scheduler.ready() == old(scheduler).ready(),
            scheduler.running() == old(scheduler).running(),
            scheduler.running_is_finished() == old(scheduler).running_is_finished(),
        ensures
            scheduler.wf(),
            taken == if old(scheduler).dying().len() < FINALIZER_BATCH { old(scheduler).dying().len() } else { FINALIZER_BATCH as nat },
            scheduler.dying() == old(scheduler).dying().skip(taken as int),
            scheduler.ready() == old(scheduler).ready(),
            scheduler.running() == old(scheduler).running(),
            scheduler.running_is_finished() == old(scheduler).running_is_finished(),
        decreases FINALIZER_BATCH - taken,
    {
        match scheduler.take_dying_thread(consumer) {
            Some(entry) => {
                proof {
                    assert(old(scheduler).dying().skip(taken as int).drop_first() =~= old(scheduler).dying().skip(taken + 1));
                }
                let mut entry = entry;
                entry.finalize();
                taken = taken + 1;
            },
            None => {
                break;
            },
        }
    }
    taken
}

} // verus!
