//! A sequential model of a small teaching kernel's process and scheduling
//! subsystem: task control blocks, a stride-fairness scheduler with an
//! execution-time budget, mmap/munmap address-space mutation, mailbox and
//! pipe IPC, a file-descriptor table, and the numeric syscall boundary.
//!
//! External collaborators (the program loader, the console and timer
//! firmware, the page-table walker and the on-disk file system) are out of
//! scope: the kernel consumes their results as plain values and tells its
//! caller which of them to invoke.

pub mod addrspace;
pub mod config;
pub mod fs;
pub mod kernel;
pub mod mailbox;
pub mod manager;
pub mod pipe;
pub mod syscall;
pub mod syscall_fs;
pub mod syscall_process;
pub mod task;
