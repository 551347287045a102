//! Processes, threads and the scheduler that switches between them.
pub mod process;
pub mod thread;
pub mod scheduler;
pub mod housekeeping_threads;
