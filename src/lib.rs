//! Thread synchronisation for a small teaching kernel: mutexes, counting
//! semaphores and condition variables, with an opt-in deadlock detector
//! (a Banker's-style safety check over a per-process resource ledger).

pub mod ledger;
pub mod sync;
pub mod process;
pub mod task_calls;
