//! Core of a single-core teaching operating-system kernel: a round-robin
//! task scheduler, per-task virtual address spaces, and a translator that
//! marshals fixed-size values across the user/kernel boundary.
#![verifier::loop_isolation(false)]

use vstd::prelude::*;

pub mod boundary;
pub mod mm;
pub mod syscall;
pub mod task;

verus! {

/// Size in bytes of one page of virtual or physical memory.
pub const PAGE_SIZE: usize = 4096;

/// Number of syscall identifiers tracked per task.
pub const MAX_SYSCALL_NUM: usize = 500;

} // verus!
