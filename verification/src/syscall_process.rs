//! Process-facing syscalls: exit, yield, time, priority and the
//! address-space mutations, as state transitions on the kernel.
//!
//! The wall clock is the external timer firmware's: the time syscalls
//! take the reading as an argument and only do the arithmetic and the
//! copy-out decision here.

use vstd::prelude::*;
use crate::addrspace::AddressSpace;
use crate::addrspace::mmap_applied;
use crate::addrspace::mmap_rejected;
use crate::addrspace::munmap_applied;
use crate::addrspace::munmap_rejected;
use crate::config::BIG_STRIDE;
use crate::config::TIME_QUANTUM_MS;
use crate::kernel::Kernel;
use crate::kernel::charged;
use crate::kernel::current_exited;
use crate::kernel::dispatched;
use crate::kernel::exec;
use crate::kernel::exit_current_and_run_next;
use crate::kernel::seq_idx_of;
use crate::kernel::suspend_current_and_run_next;
use crate::kernel::task_mmap;
use crate::kernel::task_munmap;
use crate::task::SchedInfo;
use crate::task::TaskControlBlock;
use crate::task::TaskStatus;

verus! {

/// Microseconds in one second.
pub const USEC_PER_SEC: usize = 1000000;

/// A wall-clock reading as the time syscall hands it to user space.
#[derive(Clone, Copy, PartialEq, Eq, Structural, Debug)]
pub struct TimeVal {
    pub sec: usize,
    pub usec: usize,
}

/// What `sys_yield` did: the stride and quantum charge, the forced exit
/// at the budget, and the minimum-pass dispatch.
pub open spec fn sys_yield_spec(pre: Kernel, post: Kernel, r: isize) -> bool {
    &&& r == 0
    &&& post.wf()
    &&& post.running_ok()
    &&& (!pre.yield_would_exit() ==> dispatched(
        pre.tasks@.update(
            seq_idx_of(pre.tasks@, pre.current),
            (TaskControlBlock {
                task_status: TaskStatus::Ready,
                ..charged(pre.task_of(pre.current))
            }),
        ),
        pre.manager.queue().push(
            SchedInfo { id: pre.current, pass: charged(pre.task_of(pre.current)).pass },
        ),
        post,
        pre.pipes@,
        pre.next_pid,
    ))
    &&& (!pre.yield_would_exit() ==> post.has_task(pre.current) && post.task_of(pre.current).pass
        == pre.task_of(pre.current).pass + BIG_STRIDE / pre.task_of(pre.current).priority
        && post.task_of(pre.current).exec_time_ms == pre.task_of(pre.current).exec_time_ms
        + TIME_QUANTUM_MS)
    &&& (pre.yield_would_exit() ==> exists|mid: Kernel|
        (#[trigger] current_exited(pre, mid, 0, charged(pre.task_of(pre.current))))
            && dispatched(mid.tasks@, mid.manager.queue(), post, mid.pipes@, mid.next_pid))
    &&& (pre.yield_would_exit() ==> post.has_task(pre.current) && post.task_of(
        pre.current,
    ).task_status is Zombie)
}

/// What `sys_exit` did: the zombie transition with the given code, the
/// reparenting, and the dispatch of the next task.
pub open spec fn sys_exit_spec(pre: Kernel, post: Kernel, exit_code: i32) -> bool {
    &&& post.wf()
    &&& post.running_ok()
    &&& exists|mid: Kernel|
        (#[trigger] current_exited(pre, mid, exit_code, pre.task_of(pre.current))) && dispatched(
            mid.tasks@,
            mid.manager.queue(),
            post,
            mid.pipes@,
            mid.next_pid,
        )
    &&& post.has_task(pre.current)
    &&& post.task_of(pre.current).task_status is Zombie
    &&& post.task_of(pre.current).exit_code == exit_code
}

/// What `setpriority` did: a priority of 1 or less is rejected and
/// nothing changes; otherwise the running task's priority becomes the
/// argument, which is echoed back.
pub open spec fn setpriority_spec(pre: Kernel, post: Kernel, prio: isize, r: isize) -> bool {
    &&& post.wf()
    &&& post.running_ok()
    &&& (prio <= 1 ==> r == -1 && post == pre)
    &&& (prio >= 2 ==> r == prio && post.task_of(pre.current) == (TaskControlBlock {
        priority: prio as usize,
        ..pre.task_of(pre.current)
    }) && post.manager == pre.manager && post.pipes == pre.pipes && post.current == pre.current
        && post.next_pid == pre.next_pid && (forall|p: usize| #[trigger]
        post.has_task(p) == pre.has_task(p)) && (forall|p: usize|
        p != pre.current && pre.has_task(p) ==> (#[trigger] post.task_of(p)) == pre.task_of(p)))
}

/// What `mmap` did to the running task's address space.
pub open spec fn mmap_spec(
    pre: Kernel,
    post: Kernel,
    start: int,
    len: int,
    prot: usize,
    r: isize,
) -> bool {
    &&& post.wf()
    &&& post.running_ok()
    &&& r == -1 || r == 0
    &&& (r == -1) == mmap_rejected(pre.task_of(pre.current).address_space, start, len, prot)
    &&& (r == -1 || len == 0 ==> post.task_of(pre.current).address_space == pre.task_of(
        pre.current,
    ).address_space)
    &&& (r == 0 && len > 0 ==> mmap_applied(
        pre.task_of(pre.current).address_space,
        post.task_of(pre.current).address_space,
        start,
        len,
        prot,
    ))
    &&& post.task_of(pre.current) == (TaskControlBlock {
        address_space: post.task_of(pre.current).address_space,
        ..pre.task_of(pre.current)
    })
    &&& (forall|p: usize| #[trigger] post.has_task(p) == pre.has_task(p))
    &&& (forall|p: usize|
        p != pre.current && pre.has_task(p) ==> (#[trigger] post.task_of(p)) == pre.task_of(p))
    &&& post.manager == pre.manager
    &&& post.pipes == pre.pipes
    &&& post.current == pre.current
    &&& post.next_pid == pre.next_pid
}

/// What `munmap` did to the running task's address space.
pub open spec fn munmap_spec(pre: Kernel, post: Kernel, start: int, len: int, r: isize) -> bool {
    &&& post.wf()
    &&& post.running_ok()
    &&& r == -1 || r == 0
    &&& (r == -1) == munmap_rejected(pre.task_of(pre.current).address_space, start, len)
    &&& (r == -1 ==> post.task_of(pre.current).address_space == pre.task_of(
        pre.current,
    ).address_space)
    &&& (r == 0 ==> munmap_applied(
        pre.task_of(pre.current).address_space,
        post.task_of(pre.current).address_space,
        start,
        len,
    ))
    &&& post.task_of(pre.current) == (TaskControlBlock {
        address_space: post.task_of(pre.current).address_space,
        ..pre.task_of(pre.current)
    })
    &&& (forall|p: usize| #[trigger] post.has_task(p) == pre.has_task(p))
    &&& (forall|p: usize|
        p != pre.current && pre.has_task(p) ==> (#[trigger] post.task_of(p)) == pre.task_of(p))
    &&& post.manager == pre.manager
    &&& post.pipes == pre.pipes
    &&& post.current == pre.current
    &&& post.next_pid == pre.next_pid
}

/// Exits the running task with the given code and schedules the next
/// one; a task never resumes from here.
pub fn sys_exit(kernel: &mut Kernel, exit_code: i32)
    requires
        old(kernel).wf(),
        old(kernel).running_ok(),
        old(kernel).manager.queue().len() > 0,
    ensures
        sys_exit_spec(*old(kernel), *final(kernel), exit_code),
{
    exit_current_and_run_next(kernel, exit_code);
}

/// Voluntarily yields the processor.
pub fn sys_yield(kernel: &mut Kernel) -> (r: isize)
    requires
        old(kernel).wf(),
        old(kernel).running_ok(),
        old(kernel).yield_would_exit() ==> old(kernel).manager.queue().len() > 0,
    ensures
        sys_yield_spec(*old(kernel), *final(kernel), r),
{
    suspend_current_and_run_next(kernel);
    0
}

/// The wall clock in whole milliseconds, from the external timer's
/// microsecond reading.
pub fn sys_get_time(now_us: usize) -> (r: isize)
    requires
        now_us / 1000 <= (isize::MAX as usize),
    ensures
        r == now_us / 1000,
{
    (now_us / 1000) as isize
}

/// Splits the external timer's microsecond reading into seconds and the
/// microsecond remainder for user space.
pub fn gettime(ts: &mut TimeVal, now_us: usize, _tz: usize) -> (r: isize)
    ensures
        r == 0,
        final(ts).sec == now_us / USEC_PER_SEC,
        final(ts).usec == now_us % USEC_PER_SEC,
{
    ts.sec = now_us / USEC_PER_SEC;
    ts.usec = now_us % USEC_PER_SEC;
    0
}

/// Sets the running task's scheduling priority; values of 1 or less are
/// rejected and leave the priority unchanged.
#[verifier::rlimit(60)]
pub fn setpriority(kernel: &mut Kernel, prio: isize) -> (r: isize)
    requires
        old(kernel).wf(),
        old(kernel).running_ok(),
    ensures
        setpriority_spec(*old(kernel), *final(kernel), prio, r),
{
    if prio <= 1 {
        return -1;
    }
    let ci = kernel.task_index_must(kernel.current);
    proof {
        assert(old(kernel).tasks@[ci as int].wf());
    }
    kernel.tasks[ci].priority = prio as usize;
    proof {
        let pre = *old(kernel);
        let t2 = TaskControlBlock { priority: prio as usize, ..pre.tasks@[ci as int] };
        assert(kernel.tasks@ =~= pre.tasks@.update(ci as int, t2));
        assert(t2.wf());
        assert(crate::kernel::caps_ok(t2, kernel.pipes@.len() as int)) by {
            assert forall|f: int|
                0 <= f < t2.fd_table@.len() implies match #[trigger] t2.fd_table@[f] {
                Some(crate::fs::FileCap::PipeRead(q)) => q < kernel.pipes@.len() as int,
                Some(crate::fs::FileCap::PipeWrite(q)) => q < kernel.pipes@.len() as int,
                _ => true,
            } by {
                assert(t2.fd_table@[f] == pre.tasks@[ci as int].fd_table@[f]);
            }
        }
        crate::kernel::lemma_update_current_wf(pre, *kernel, t2);
    }
    prio
}

/// Maps `[start, start + len)` into the calling task's address space
/// with the requested protection, rejecting misaligned starts, invalid
/// protections and overlaps with existing mappings.
pub fn mmap(kernel: &mut Kernel, start: usize, len: usize, prot: usize) -> (r: isize)
    requires
        old(kernel).wf(),
        old(kernel).running_ok(),
    ensures
        mmap_spec(*old(kernel), *final(kernel), start as int, len as int, prot, r),
{
    task_mmap(kernel, start, len, prot)
}

/// Unmaps `[start, start + len)` from the calling task's address space,
/// rejecting misaligned starts and ranges not entirely mapped.
pub fn munmap(kernel: &mut Kernel, start: usize, len: usize) -> (r: isize)
    requires
        old(kernel).wf(),
        old(kernel).running_ok(),
    ensures
        munmap_spec(*old(kernel), *final(kernel), start as int, len as int, r),
{
    task_munmap(kernel, start, len)
}

/// What `sys_exec` did with the loader's answer: a failed load is a
/// no-op error; a loaded image replaces the running task's address space
/// and entry context in place, keeping its identity and descriptor
/// table.
pub open spec fn sys_exec_spec(
    pre: Kernel,
    post: Kernel,
    image: Option<(AddressSpace, usize)>,
    r: isize,
) -> bool {
    &&& post.wf()
    &&& post.running_ok()
    &&& (image is None ==> r == -1 && post == pre)
    &&& (image matches Some((address_space, entry_cx)) ==> ({
        &&& r == 0
        &&& post.task_of(pre.current) == (TaskControlBlock {
            address_space,
            task_cx_ptr: entry_cx,
            ..pre.task_of(pre.current)
        })
        &&& (forall|p: usize| #[trigger] post.has_task(p) == pre.has_task(p))
        &&& (forall|p: usize|
            p != pre.current && pre.has_task(p) ==> (#[trigger] post.task_of(p)) == pre.task_of(
                p,
            ))
        &&& post.manager == pre.manager
        &&& post.pipes == pre.pipes
        &&& post.current == pre.current
        &&& post.next_pid == pre.next_pid
    }))
}

/// Replaces the running task's program with what the external loader
/// made of the requested image: `None` (the image could not be loaded)
/// fails with `-1` and changes nothing; a loaded address space and entry
/// context replace the task's own in place.
pub fn sys_exec(kernel: &mut Kernel, image: Option<(AddressSpace, usize)>) -> (r: isize)
    requires
        old(kernel).wf(),
        old(kernel).running_ok(),
        image matches Some((address_space, _)) ==> address_space.wf(),
    ensures
        sys_exec_spec(*old(kernel), *final(kernel), image, r),
{
    match image {
        None => -1,
        Some((address_space, entry_cx)) => {
            exec(kernel, address_space, entry_cx);
            0
        },
    }
}

/// The calling task's own identity.
pub fn sys_getpid(kernel: &Kernel) -> (r: isize)
    requires
        kernel.wf(),
        kernel.running_ok(),
    ensures
        r == kernel.current,
        r >= 0,
{
    proof {
        let c = choose|i: int|
            0 <= i < kernel.tasks@.len() && (#[trigger] kernel.tasks@[i]).pid == kernel.current;
        assert(kernel.tasks@[c].pid < kernel.next_pid);
    }
    kernel.current as isize
}

} // verus!
