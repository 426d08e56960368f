//! Process and thread control blocks for a small kernel core.
//!
//! The crate models the execution-context lifecycle of a kernel: creating
//! kernel threads, loading user processes from executable images, forking
//! and cloning address spaces, and handing the pages of an address space to
//! an external page-swapping subsystem. Hardware state (registers, page
//! tables, frames) is represented by plain values so that every decision the
//! core makes is stated in a contract and proved.

pub mod abi;
pub mod arch;
pub mod assoc;
pub mod context;
pub mod elf;
pub mod file;
pub mod memory;
pub mod pid;
pub mod process;
pub mod sync;
pub mod thread;

use vstd::prelude::*;

verus! {

/// Thread identifier handed out by the scheduler.
pub type Tid = usize;

} // verus!
