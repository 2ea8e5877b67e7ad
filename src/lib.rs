//! A uniprocessor teaching kernel's process core: the task table, the stride
//! scheduler, the trap classifier, per-task address-space regions and the
//! system-call surface, each stated and proved with Verus.
use vstd::prelude::*;

pub mod config;
pub mod context;
pub mod trap_context;
pub mod manager;
pub mod memory;
pub mod trap;
pub mod task;
pub mod kernel;
pub mod process;
pub mod running;
pub mod syscall;
pub mod laws;

verus! {

} // verus!
