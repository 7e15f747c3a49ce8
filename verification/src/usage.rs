//! The process-accounting record surfaced by the process-table
//! collaborator.
//!
//! Reading and parsing the process table is a thin I/O wrapper outside
//! the library; it hands over plain `AppProcess` values. Times are in
//! jiffies as the kernel reports them.

use vstd::prelude::*;

verus! {

/// Timing data of one running process.
#[derive(Debug, Clone)]
pub struct AppProcess {
    pub pid: u32,
    pub command: String,
    /// Time spent executing in user space, in jiffies.
    pub utime: u64,
    /// Time spent executing in kernel space, in jiffies.
    pub stime: u64,
    /// Start time after system boot, in jiffies.
    pub start_time_jiffies: u64,
}

} // verus!
