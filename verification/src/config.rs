//! Build-time constants of the kernel.

use vstd::prelude::*;

verus! {

pub const USER_STACK_SIZE: usize = 4096;

pub const KERNEL_STACK_SIZE: usize = 4096;

pub const MAX_APP_NUM: usize = 6;

pub const APP_BASE_ADDRESS: usize = 0x80400000;

pub const APP_SIZE_LIMIT: usize = 0x20000;

/// Numerator of the stride-scheduling increment: a task that yields pays
/// `BIG_STRIDE / priority` onto its pass.
pub const BIG_STRIDE: usize = 1000;

/// Priority given to every fresh task; `setpriority` may raise or lower it,
/// but never below 2.
pub const DEFAULT_PRIORITY: usize = 16;

/// Size of one page of virtual memory, in bytes.
pub const PAGE_SIZE: usize = 4096;

/// Milliseconds charged to a task's cumulative execution time on every
/// voluntary suspension.
pub const TIME_QUANTUM_MS: usize = 10;

/// A task whose cumulative execution time reaches this bound on a yield is
/// forcibly exited instead of being suspended.
pub const TIME_BUDGET_MS: usize = 5000;

} // verus!
