//! The task control block: the kernel's per-process record, its lifecycle
//! states, and the scheduling record the ready set is ordered by.

use vstd::prelude::*;
use crate::addrspace::AddressSpace;
use crate::config::BIG_STRIDE;
use crate::config::DEFAULT_PRIORITY;
use crate::config::TIME_BUDGET_MS;
use crate::config::TIME_QUANTUM_MS;
use crate::fs::FileCap;
use crate::mailbox::Mailbox;

verus! {

/// Lifecycle states of a task. Exactly one task is `Running` at a time;
/// `Zombie` is terminal and only left by the parent's reap.
#[derive(Clone, Copy, PartialEq, Eq, Structural, Debug)]
pub enum TaskStatus {
    Uninit,
    Ready,
    Running,
    Blocked,
    Zombie,
}

/// The kernel's per-process record.
pub struct TaskControlBlock {
    /// Process identity: unique among live tasks, assigned monotonically.
    pub pid: usize,
    /// Opaque anchor of the saved execution context, owned exclusively
    /// and read only by the external context-switch primitive.
    pub task_cx_ptr: usize,
    pub task_status: TaskStatus,
    /// Cumulative run time charged, in milliseconds.
    pub exec_time_ms: usize,
    /// Scheduling weight, at least 2; larger values are scheduled more
    /// often.
    pub priority: usize,
    /// Accumulated stride: grows by `BIG_STRIDE / priority` on every
    /// voluntary suspension.
    pub pass: usize,
    /// Identity of the parent, if any: a non-owning back-reference.
    pub parent: Option<usize>,
    /// Identities of the children, owned until reaped or reparented.
    pub children: Vec<usize>,
    /// File-descriptor table; an empty slot is a closed descriptor.
    pub fd_table: Vec<Option<FileCap>>,
    /// The mapped virtual regions the task owns.
    pub address_space: AddressSpace,
    /// The task's always-present message channel.
    pub mailbox: Mailbox,
    /// Set once, at the transition to `Zombie`.
    pub exit_code: i32,
}

impl TaskControlBlock {
    /// Structural invariant of one task record.
    ///
    /// The arithmetic bounds tie the pass to the charged execution time:
    /// one voluntary suspension adds at most `BIG_STRIDE / 2` to the pass
    /// and exactly `TIME_QUANTUM_MS` to the execution time, and a live
    /// task's execution time stays under the forced-exit budget, so
    /// neither counter can overflow.
    pub open spec fn wf(self) -> bool {
        &&& self.priority >= 2
        &&& self.mailbox.wf()
        &&& self.address_space.wf()
        &&& (self.task_status is Ready || self.task_status is Running) ==> (self.exec_time_ms
            < TIME_BUDGET_MS && self.pass * TIME_QUANTUM_MS <= (BIG_STRIDE / 2)
            * self.exec_time_ms)
    }

    /// A fresh task: `Ready`, default priority, zero pass and run time,
    /// standard input and output open, an empty mailbox, and the address
    /// space the external loader populated from the program image.
    pub fn new(pid: usize, address_space: AddressSpace, entry_cx: usize) -> (r: Self)
        requires
            address_space.wf(),
        ensures
            r.wf(),
            r.pid == pid,
            r.task_cx_ptr == entry_cx,
            r.task_status is Ready,
            r.exec_time_ms == 0,
            r.priority == DEFAULT_PRIORITY,
            r.pass == 0,
            r.parent is None,
            r.children@ == Seq::<usize>::empty(),
            r.fd_table@.len() == 3,
            r.fd_table@[0] == Some(FileCap::Stdin),
            r.fd_table@[1] == Some(FileCap::Stdout),
            r.fd_table@[2] == Some(FileCap::Stdout),
            r.address_space == address_space,
            r.mailbox.pending() == Seq::<Seq<u8>>::empty(),
            r.exit_code == 0,
    {
        let mut fd_table: Vec<Option<FileCap>> = Vec::new();
        fd_table.push(Some(FileCap::Stdin));
        fd_table.push(Some(FileCap::Stdout));
        fd_table.push(Some(FileCap::Stdout));
        Self {
            pid,
            task_cx_ptr: entry_cx,
            task_status: TaskStatus::Ready,
            exec_time_ms: 0,
            priority: DEFAULT_PRIORITY,
            pass: 0,
            parent: None,
            children: Vec::new(),
            fd_table,
            address_space,
            mailbox: Mailbox::new(),
            exit_code: 0,
        }
    }

    /// The context anchor handed to the external context-switch primitive.
    pub fn get_task_cx_ptr2(&self) -> (r: usize)
        ensures
            r == self.task_cx_ptr,
    {
        self.task_cx_ptr
    }

    /// Index of the lowest free descriptor slot, growing the table by one
    /// slot when every existing one is occupied.
    pub fn alloc_fd(&mut self) -> (fd: usize)
        requires
            old(self).fd_table@.len() < usize::MAX,
        ensures
            fd <= old(self).fd_table@.len(),
            fd < final(self).fd_table@.len(),
            final(self).fd_table@[fd as int] is None,
            forall|j: int| 0 <= j < fd ==> (#[trigger] final(self).fd_table@[j]) is Some,
            final(self).fd_table@.len() == vstd::math::max(
                old(self).fd_table@.len() as int,
                fd + 1,
            ),
            forall|j: int|
                0 <= j < old(self).fd_table@.len() ==> (#[trigger] final(self).fd_table@[j]) == old(
                    self,
                ).fd_table@[j],
            *final(self) == (TaskControlBlock { fd_table: final(self).fd_table, ..*old(self) }),
    {
        let mut fd: usize = 0;
        while fd < self.fd_table.len()
            invariant
                *self == *old(self),
                fd <= self.fd_table@.len(),
                forall|j: int| 0 <= j < fd ==> (#[trigger] self.fd_table@[j]) is Some,
            decreases self.fd_table@.len() - fd,
        {
            if self.fd_table[fd].is_none() {
                return fd;
            }
            fd = fd + 1;
        }
        self.fd_table.push(None);
        fd
    }
}

/// The scheduling record of one ready task: its identity and its
/// accumulated pass. Records compare by pass alone.
#[derive(Clone, Copy)]
pub struct SchedInfo {
    pub id: usize,
    pub pass: usize,
}

impl SchedInfo {
    /// Orders records by pass alone.
    pub fn cmp(&self, other: &Self) -> (r: core::cmp::Ordering)
        ensures
            r == (if self.pass > other.pass {
                core::cmp::Ordering::Greater
            } else if self.pass == other.pass {
                core::cmp::Ordering::Equal
            } else {
                core::cmp::Ordering::Less
            }),
    {
        if self.pass > other.pass {
            core::cmp::Ordering::Greater
        } else if self.pass == other.pass {
            core::cmp::Ordering::Equal
        } else {
            core::cmp::Ordering::Less
        }
    }
}

impl PartialEq for SchedInfo {
    fn eq(&self, other: &Self) -> (r: bool) {
        self.pass == other.pass
    }
}

impl Eq for SchedInfo {

}

impl vstd::std_specs::cmp::PartialEqSpecImpl for SchedInfo {
    open spec fn obeys_eq_spec() -> bool {
        true
    }

    open spec fn eq_spec(&self, other: &Self) -> bool {
        self.pass == other.pass
    }
}

impl PartialOrd for SchedInfo {
    fn partial_cmp(&self, other: &Self) -> (r: Option<core::cmp::Ordering>) {
        Some(self.cmp(other))
    }
}

impl vstd::std_specs::cmp::PartialOrdSpecImpl for SchedInfo {
    open spec fn obeys_partial_cmp_spec() -> bool {
        true
    }

    open spec fn partial_cmp_spec(&self, other: &Self) -> Option<core::cmp::Ordering> {
        Some(
            if self.pass > other.pass {
                core::cmp::Ordering::Greater
            } else if self.pass == other.pass {
                core::cmp::Ordering::Equal
            } else {
                core::cmp::Ordering::Less
            },
        )
    }
}

} // verus!
