//! File-facing syscalls: descriptor-table reads and writes, pipe and
//! mailbox transfers, open, close and dup.
//!
//! Every user pointer is validated against the calling task's mapped,
//! user-accessible ranges before any transfer is attempted. The byte copy
//! across the user/kernel boundary itself is the page-table
//! collaborator's: reads hand the produced bytes back to the trap
//! handler, writes take the fetched bytes as an argument.

use vstd::prelude::*;
use crate::addrspace::spec_buf_ok;
use crate::fs::FileCap;
use crate::fs::cap_readable;
use crate::fs::cap_writable;
use crate::fs::spec_cap_readable;
use crate::fs::spec_cap_writable;
use crate::kernel::Kernel;
use crate::kernel::lemma_update_current_wf;
use crate::kernel::lemma_update_pipes_wf;
use crate::mailbox::MAILBOX_BUFFER_SIZE;
use crate::mailbox::MAX_MAIL_LENGTH;
use crate::pipe::PipeReadStep;
use crate::pipe::PipeWriteStep;
use crate::pipe::RING_BUFFER_SIZE;
use crate::pipe::make_pipe;
use crate::task::TaskControlBlock;

verus! {

/// Outcome of a write through a descriptor.
pub enum WriteResult {
    /// Settled inside the kernel: the byte count, or `-1` on failure.
    Done(isize),
    /// The bytes go to the console; the count is already decided.
    Console(isize),
    /// The bytes go to the named inode of the external file system.
    Disk(usize),
    /// A full pipe with a reader still attached: yield and retry.
    Retry,
}

/// Outcome of a read through a descriptor.
pub enum ReadResult {
    /// Settled inside the kernel: the byte count (or `-1`) and the bytes.
    Done(isize, Vec<u8>),
    /// Up to `len` bytes come from console input.
    Console(usize),
    /// Up to `len` bytes come from the named inode.
    Disk(usize, usize),
    /// An empty pipe with a writer still attached: yield and retry.
    Retry,
}

/// The kernel state is unchanged, stated over the pipe registry's view
/// so that a pipe probed but left as it was still counts as unchanged.
pub open spec fn same_kernel(pre: Kernel, post: Kernel) -> bool {
    &&& post.tasks == pre.tasks
    &&& post.manager == pre.manager
    &&& post.current == pre.current
    &&& post.next_pid == pre.next_pid
    &&& post.pipes@ == pre.pipes@
}

/// What a write step on pipe `p` did.
pub open spec fn pipe_write_case(
    pre: Kernel,
    post: Kernel,
    p: usize,
    data: Seq<u8>,
    r: WriteResult,
) -> bool {
    let pipe = pre.pipes@[p as int];
    &&& (pipe.read_end_count() == 0 ==> r == WriteResult::Done(-1isize) && same_kernel(pre, post))
    &&& (pipe.read_end_count() > 0 && data.len() > 0 && pipe.buffered().len() == RING_BUFFER_SIZE
        ==> r is Retry && same_kernel(pre, post))
    &&& (pipe.read_end_count() > 0 && (data.len() == 0 || pipe.buffered().len()
        < RING_BUFFER_SIZE) ==> ({
        let n = vstd::math::min(data.len() as int, RING_BUFFER_SIZE - pipe.buffered().len());
        &&& r == WriteResult::Done(n as isize)
        &&& post.pipes@.len() == pre.pipes@.len()
        &&& post.pipes@[p as int].buffered() == pipe.buffered() + data.take(n)
        &&& post.pipes@[p as int].read_end_count() == pipe.read_end_count()
        &&& post.pipes@[p as int].write_end_count() == pipe.write_end_count()
        &&& (forall|q: int|
            0 <= q < pre.pipes@.len() && q != p ==> #[trigger] post.pipes@[q] == pre.pipes@[q])
        &&& post.tasks == pre.tasks
        &&& post.manager == pre.manager
        &&& post.current == pre.current
        &&& post.next_pid == pre.next_pid
    }))
}

/// What `sys_write` did for each shape of the descriptor.
pub open spec fn sys_write_spec(
    pre: Kernel,
    post: Kernel,
    fd: int,
    buf: int,
    data: Seq<u8>,
    r: WriteResult,
) -> bool {
    let c = pre.task_of(pre.current);
    &&& post.wf()
    &&& post.running_ok()
    &&& (!spec_buf_ok(c.address_space, buf, data.len() as int) ==> r == WriteResult::Done(-1isize)
        && same_kernel(pre, post))
    &&& (spec_buf_ok(c.address_space, buf, data.len() as int) && fd >= c.fd_table@.len() ==> r
        == WriteResult::Done(-1isize) && same_kernel(pre, post))
    &&& (spec_buf_ok(c.address_space, buf, data.len() as int) && 0 <= fd < c.fd_table@.len()
        ==> match c.fd_table@[fd] {
        None => r == WriteResult::Done(-1isize) && same_kernel(pre, post),
        Some(cap) => {
            &&& (!spec_cap_writable(cap) ==> r == WriteResult::Done(-1isize) && same_kernel(pre, post))
            &&& (cap is Stdout ==> r == WriteResult::Console(data.len() as isize) && same_kernel(pre, post))
            &&& (cap matches FileCap::Inode { handle, readable: _, writable } ==> (writable
                ==> r == WriteResult::Disk(handle) && same_kernel(pre, post)))
            &&& (cap matches FileCap::PipeWrite(p) ==> pipe_write_case(pre, post, p, data, r))
        },
    })
}

/// Writes `data`, fetched from the user range at `buf`, through
/// descriptor `fd` of the running task.
pub fn sys_write(kernel: &mut Kernel, fd: usize, buf: usize, data: &Vec<u8>) -> (r: WriteResult)
    requires
        old(kernel).wf(),
        old(kernel).running_ok(),
        data@.len() <= (isize::MAX as usize),
    ensures
        sys_write_spec(*old(kernel), *final(kernel), fd as int, buf as int, data@, r),
{
    let ci = kernel.task_index_must(kernel.current);
    proof {
        assert(old(kernel).tasks@[ci as int].wf());
        assert(crate::kernel::caps_ok(old(kernel).tasks@[ci as int], old(kernel).pipes@.len() as int));
    }
    if !kernel.tasks[ci].address_space.check_buf(buf, data.len()) {
        return WriteResult::Done(-1);
    }
    if fd >= kernel.tasks[ci].fd_table.len() {
        return WriteResult::Done(-1);
    }
    let cap = match kernel.tasks[ci].fd_table[fd] {
        None => {
            return WriteResult::Done(-1);
        },
        Some(cap) => cap,
    };
    if !cap_writable(cap) {
        return WriteResult::Done(-1);
    }
    proof {
        assert(old(kernel).task_of(old(kernel).current) == old(kernel).tasks@[ci as int]);
        assert(old(kernel).task_of(old(kernel).current).fd_table@[fd as int] == Some(cap));
    }
    match cap {
        FileCap::Stdout => WriteResult::Console(data.len() as isize),
        FileCap::Inode { handle, readable: _, writable: _ } => WriteResult::Disk(handle),
        FileCap::PipeWrite(p) => {
            proof {
                assert(p < old(kernel).pipes@.len());
                assert(old(kernel).pipes@[p as int].wf());
            }
            let step = kernel.pipes[p].write_step(data);
            proof {
                lemma_update_pipes_wf(*old(kernel), *kernel);
                if kernel.pipes@[p as int] == old(kernel).pipes@[p as int] {
                    assert(kernel.pipes@ =~= old(kernel).pipes@);
                }
            }
            match step {
                PipeWriteStep::Written(n) => {
                    proof {
                        assert(n <= RING_BUFFER_SIZE);
                    }
                    WriteResult::Done(n as isize)
                },
                PipeWriteStep::Retry => WriteResult::Retry,
                PipeWriteStep::Broken => WriteResult::Done(-1),
            }
        },
        FileCap::Stdin => {
            proof {
                assert(false);
            }
            WriteResult::Done(-1)
        },
        FileCap::PipeRead(_) => {
            proof {
                assert(false);
            }
            WriteResult::Done(-1)
        },
    }
}

/// What a read step on pipe `p` did.
pub open spec fn pipe_read_case(
    pre: Kernel,
    post: Kernel,
    p: usize,
    len: int,
    r: ReadResult,
) -> bool {
    let pipe = pre.pipes@[p as int];
    &&& (pipe.buffered().len() == 0 && pipe.write_end_count() > 0 ==> r is Retry && same_kernel(pre, post))
    &&& (pipe.buffered().len() == 0 && pipe.write_end_count() == 0 ==> (r matches ReadResult::Done(
        n,
        d,
    ) && n == 0 && d@ == Seq::<u8>::empty()) && same_kernel(pre, post))
    &&& (pipe.buffered().len() > 0 ==> ({
        let n = vstd::math::min(len, pipe.buffered().len() as int);
        &&& (r matches ReadResult::Done(cnt, d) && cnt == n && d@ == pipe.buffered().take(n))
        &&& post.pipes@.len() == pre.pipes@.len()
        &&& post.pipes@[p as int].buffered() == pipe.buffered().skip(n)
        &&& post.pipes@[p as int].read_end_count() == pipe.read_end_count()
        &&& post.pipes@[p as int].write_end_count() == pipe.write_end_count()
        &&& (forall|q: int|
            0 <= q < pre.pipes@.len() && q != p ==> #[trigger] post.pipes@[q] == pre.pipes@[q])
        &&& post.tasks == pre.tasks
        &&& post.manager == pre.manager
        &&& post.current == pre.current
        &&& post.next_pid == pre.next_pid
    }))
}

/// What `sys_read` did for each shape of the descriptor.
pub open spec fn sys_read_spec(
    pre: Kernel,
    post: Kernel,
    fd: int,
    buf: int,
    len: int,
    r: ReadResult,
) -> bool {
    let c = pre.task_of(pre.current);
    &&& post.wf()
    &&& post.running_ok()
    &&& (fd >= c.fd_table@.len() ==> (r matches ReadResult::Done(n, _) && n == -1) && same_kernel(pre, post))
    &&& (0 <= fd < c.fd_table@.len() ==> match c.fd_table@[fd] {
        None => (r matches ReadResult::Done(n, _) && n == -1) && same_kernel(pre, post),
        Some(cap) => {
            &&& (!spec_cap_readable(cap) ==> (r matches ReadResult::Done(n, _) && n == -1) && post
                == pre)
            &&& (spec_cap_readable(cap) && !spec_buf_ok(c.address_space, buf, len) ==> (
            r matches ReadResult::Done(n, _) && n == -1) && same_kernel(pre, post))
            &&& (spec_cap_readable(cap) && spec_buf_ok(c.address_space, buf, len) ==> {
                &&& (cap is Stdin ==> r == ReadResult::Console(len as usize) && same_kernel(pre, post))
                &&& (cap matches FileCap::Inode { handle, readable, writable: _ } ==> (readable
                    ==> r == ReadResult::Disk(handle, len as usize) && same_kernel(pre, post)))
                &&& (cap matches FileCap::PipeRead(p) ==> pipe_read_case(pre, post, p, len, r))
            })
        },
    })
}

/// Reads up to `len` bytes through descriptor `fd` of the running task
/// into the user range at `buf`.
pub fn sys_read(kernel: &mut Kernel, fd: usize, buf: usize, len: usize) -> (r: ReadResult)
    requires
        old(kernel).wf(),
        old(kernel).running_ok(),
        len <= (isize::MAX as usize),
    ensures
        sys_read_spec(*old(kernel), *final(kernel), fd as int, buf as int, len as int, r),
{
    let ci = kernel.task_index_must(kernel.current);
    proof {
        assert(old(kernel).tasks@[ci as int].wf());
        assert(crate::kernel::caps_ok(old(kernel).tasks@[ci as int], old(kernel).pipes@.len() as int));
    }
    if fd >= kernel.tasks[ci].fd_table.len() {
        return ReadResult::Done(-1, Vec::new());
    }
    let cap = match kernel.tasks[ci].fd_table[fd] {
        None => {
            return ReadResult::Done(-1, Vec::new());
        },
        Some(cap) => cap,
    };
    if !cap_readable(cap) {
        return ReadResult::Done(-1, Vec::new());
    }
    if !kernel.tasks[ci].address_space.check_buf(buf, len) {
        return ReadResult::Done(-1, Vec::new());
    }
    proof {
        assert(old(kernel).task_of(old(kernel).current) == old(kernel).tasks@[ci as int]);
        assert(old(kernel).task_of(old(kernel).current).fd_table@[fd as int] == Some(cap));
    }
    match cap {
        FileCap::Stdin => ReadResult::Console(len),
        FileCap::Inode { handle, readable: _, writable: _ } => ReadResult::Disk(handle, len),
        FileCap::PipeRead(p) => {
            proof {
                assert(p < old(kernel).pipes@.len());
                assert(old(kernel).pipes@[p as int].wf());
            }
            let step = kernel.pipes[p].read_step(len);
            proof {
                lemma_update_pipes_wf(*old(kernel), *kernel);
                if kernel.pipes@[p as int] == old(kernel).pipes@[p as int] {
                    assert(kernel.pipes@ =~= old(kernel).pipes@);
                }
            }
            match step {
                PipeReadStep::Data(d) => {
                    let n = d.len();
                    proof {
                        assert(n <= RING_BUFFER_SIZE);
                    }
                    ReadResult::Done(n as isize, d)
                },
                PipeReadStep::Retry => ReadResult::Retry,
                PipeReadStep::Closed => ReadResult::Done(0, Vec::new()),
            }
        },
        FileCap::Stdout => {
            proof {
                assert(false);
            }
            ReadResult::Done(-1, Vec::new())
        },
        FileCap::PipeWrite(_) => {
            proof {
                assert(false);
            }
            ReadResult::Done(-1, Vec::new())
        },
    }
}

/// What closing a descriptor holding `cap` did to the pipe registry.
pub open spec fn closed_pipe_effect(pre: Kernel, post: Kernel, cap: FileCap) -> bool {
    match cap {
        FileCap::PipeRead(p) => {
            &&& post.pipes@.len() == pre.pipes@.len()
            &&& post.pipes@[p as int].buffered() == pre.pipes@[p as int].buffered()
            &&& post.pipes@[p as int].write_end_count() == pre.pipes@[p as int].write_end_count()
            &&& (pre.pipes@[p as int].read_end_count() > 0 ==> post.pipes@[p as int].read_end_count()
                == pre.pipes@[p as int].read_end_count() - 1)
            &&& (forall|q: int|
                0 <= q < pre.pipes@.len() && q != p ==> #[trigger] post.pipes@[q]
                    == pre.pipes@[q])
        },
        FileCap::PipeWrite(p) => {
            &&& post.pipes@.len() == pre.pipes@.len()
            &&& post.pipes@[p as int].buffered() == pre.pipes@[p as int].buffered()
            &&& post.pipes@[p as int].read_end_count() == pre.pipes@[p as int].read_end_count()
            &&& (pre.pipes@[p as int].write_end_count() > 0 ==> post.pipes@[p as int].write_end_count()
                == pre.pipes@[p as int].write_end_count() - 1)
            &&& (forall|q: int|
                0 <= q < pre.pipes@.len() && q != p ==> #[trigger] post.pipes@[q]
                    == pre.pipes@[q])
        },
        _ => post.pipes@ == pre.pipes@,
    }
}

/// What duplicating a descriptor holding `cap` did to the pipe registry.
pub open spec fn dup_pipe_effect(pre: Kernel, post: Kernel, cap: FileCap) -> bool {
    match cap {
        FileCap::PipeRead(p) => {
            &&& post.pipes@.len() == pre.pipes@.len()
            &&& post.pipes@[p as int].buffered() == pre.pipes@[p as int].buffered()
            &&& post.pipes@[p as int].write_end_count() == pre.pipes@[p as int].write_end_count()
            &&& (pre.pipes@[p as int].read_end_count() < usize::MAX ==> post.pipes@[p as int].read_end_count()
                == pre.pipes@[p as int].read_end_count() + 1)
            &&& (forall|q: int|
                0 <= q < pre.pipes@.len() && q != p ==> #[trigger] post.pipes@[q]
                    == pre.pipes@[q])
        },
        FileCap::PipeWrite(p) => {
            &&& post.pipes@.len() == pre.pipes@.len()
            &&& post.pipes@[p as int].buffered() == pre.pipes@[p as int].buffered()
            &&& post.pipes@[p as int].read_end_count() == pre.pipes@[p as int].read_end_count()
            &&& (pre.pipes@[p as int].write_end_count() < usize::MAX ==> post.pipes@[p as int].write_end_count()
                == pre.pipes@[p as int].write_end_count() + 1)
            &&& (forall|q: int|
                0 <= q < pre.pipes@.len() && q != p ==> #[trigger] post.pipes@[q]
                    == pre.pipes@[q])
        },
        _ => post.pipes@ == pre.pipes@,
    }
}

/// What `sys_close` did.
pub open spec fn sys_close_spec(pre: Kernel, post: Kernel, fd: int, r: isize) -> bool {
    let c = pre.task_of(pre.current);
    &&& post.wf()
    &&& post.running_ok()
    &&& (fd >= c.fd_table@.len() ==> r == -1 && same_kernel(pre, post))
    &&& (0 <= fd < c.fd_table@.len() && c.fd_table@[fd] is None ==> r == -1 && same_kernel(
        pre,
        post,
    ))
    &&& (0 <= fd < c.fd_table@.len() ==> (c.fd_table@[fd] matches Some(cap) ==> ({
        &&& r == 0
        &&& post.task_of(pre.current).fd_table@ == c.fd_table@.update(fd, None)
        &&& post.task_of(pre.current) == (TaskControlBlock {
            fd_table: post.task_of(pre.current).fd_table,
            ..c
        })
        &&& (forall|p: usize| #[trigger] post.has_task(p) == pre.has_task(p))
        &&& (forall|p: usize|
            p != pre.current && pre.has_task(p) ==> (#[trigger] post.task_of(p)) == pre.task_of(
                p,
            ))
        &&& post.manager == pre.manager
        &&& post.current == pre.current
        &&& post.next_pid == pre.next_pid
        &&& closed_pipe_effect(pre, post, cap)
    })))
}

/// Closes descriptor `fd` of the running task, releasing its share of a
/// pipe end when the slot held one.
#[verifier::rlimit(60)]
pub fn sys_close(kernel: &mut Kernel, fd: usize) -> (r: isize)
    requires
        old(kernel).wf(),
        old(kernel).running_ok(),
    ensures
        sys_close_spec(*old(kernel), *final(kernel), fd as int, r),
{
    let ci = kernel.task_index_must(kernel.current);
    proof {
        assert(old(kernel).tasks@[ci as int].wf());
        assert(crate::kernel::caps_ok(
            old(kernel).tasks@[ci as int],
            old(kernel).pipes@.len() as int,
        ));
    }
    if fd >= kernel.tasks[ci].fd_table.len() {
        return -1;
    }
    let cap = match kernel.tasks[ci].fd_table[fd] {
        None => {
            return -1;
        },
        Some(cap) => cap,
    };
    kernel.tasks[ci].fd_table[fd] = None;
    let ghost mid = *kernel;
    match cap {
        FileCap::PipeRead(p) => {
            kernel.pipes[p].close_read_end();
        },
        FileCap::PipeWrite(p) => {
            kernel.pipes[p].close_write_end();
        },
        _ => {},
    }
    proof {
        let pre = *old(kernel);
        let t2 = TaskControlBlock {
            fd_table: mid.tasks@[ci as int].fd_table,
            ..pre.tasks@[ci as int]
        };
        assert(kernel.tasks@ =~= pre.tasks@.update(ci as int, t2));
        assert(t2.fd_table@ =~= pre.tasks@[ci as int].fd_table@.update(fd as int, None));
        assert(t2.wf());
        assert(crate::kernel::caps_ok(t2, kernel.pipes@.len() as int)) by {
            assert forall|f: int| 0 <= f < t2.fd_table@.len() implies match #[trigger] t2.fd_table@[f] {
                Some(FileCap::PipeRead(q)) => q < kernel.pipes@.len() as int,
                Some(FileCap::PipeWrite(q)) => q < kernel.pipes@.len() as int,
                _ => true,
            } by {
                if f != fd {
                    assert(t2.fd_table@[f] == pre.tasks@[ci as int].fd_table@[f]);
                }
            }
        }
        lemma_update_current_wf(pre, *kernel, t2);
    }
    0
}

/// What `sys_dup` did: the lowest free slot gains a second capability to
/// the same object, sharing a pipe end where the slot held one.
pub open spec fn sys_dup_spec(pre: Kernel, post: Kernel, fd: int, r: isize) -> bool {
    let c = pre.task_of(pre.current);
    &&& post.wf()
    &&& post.running_ok()
    &&& (fd >= c.fd_table@.len() ==> r == -1 && same_kernel(pre, post))
    &&& (0 <= fd < c.fd_table@.len() && c.fd_table@[fd] is None ==> r == -1 && same_kernel(
        pre,
        post,
    ))
    &&& (0 <= fd < c.fd_table@.len() ==> (c.fd_table@[fd] matches Some(cap) ==> ({
        &&& r >= 0
        &&& (forall|j: int| 0 <= j < r ==> (#[trigger] c.fd_table@[j]) is Some)
        &&& (r < c.fd_table@.len() ==> c.fd_table@[r as int] is None)
        &&& r <= c.fd_table@.len()
        &&& post.task_of(pre.current).fd_table@ == (if r < c.fd_table@.len() {
            c.fd_table@.update(r as int, Some(cap))
        } else {
            c.fd_table@.push(Some(cap))
        })
        &&& post.task_of(pre.current) == (TaskControlBlock {
            fd_table: post.task_of(pre.current).fd_table,
            ..c
        })
        &&& (forall|p: usize| #[trigger] post.has_task(p) == pre.has_task(p))
        &&& (forall|p: usize|
            p != pre.current && pre.has_task(p) ==> (#[trigger] post.task_of(p)) == pre.task_of(
                p,
            ))
        &&& post.manager == pre.manager
        &&& post.current == pre.current
        &&& post.next_pid == pre.next_pid
        &&& dup_pipe_effect(pre, post, cap)
    })))
}

/// Duplicates descriptor `fd` of the running task into the lowest free
/// slot.
#[verifier::rlimit(60)]
pub fn sys_dup(kernel: &mut Kernel, fd: usize) -> (r: isize)
    requires
        old(kernel).wf(),
        old(kernel).running_ok(),
        old(kernel).task_of(old(kernel).current).fd_table@.len() < (isize::MAX as usize),
    ensures
        sys_dup_spec(*old(kernel), *final(kernel), fd as int, r),
{
    let ci = kernel.task_index_must(kernel.current);
    proof {
        assert(old(kernel).tasks@[ci as int].wf());
        assert(crate::kernel::caps_ok(
            old(kernel).tasks@[ci as int],
            old(kernel).pipes@.len() as int,
        ));
    }
    if fd >= kernel.tasks[ci].fd_table.len() {
        return -1;
    }
    let cap = match kernel.tasks[ci].fd_table[fd] {
        None => {
            return -1;
        },
        Some(cap) => cap,
    };
    let new_fd = kernel.tasks[ci].alloc_fd();
    proof {
        let tbl0 = old(kernel).tasks@[ci as int].fd_table@;
        let tbla = kernel.tasks@[ci as int].fd_table@;
        assert forall|j: int| 0 <= j < new_fd implies (#[trigger] tbl0[j]) is Some by {
            assert(tbla[j] is Some);
            assert(tbla[j] == tbl0[j]);
        }
        if new_fd < tbl0.len() {
            assert(tbl0[new_fd as int] == tbla[new_fd as int]);
            assert(tbl0[new_fd as int] is None);
        }
    }
    kernel.tasks[ci].fd_table[new_fd] = Some(cap);
    let ghost mid = *kernel;
    match cap {
        FileCap::PipeRead(p) => {
            kernel.pipes[p].dup_read_end();
        },
        FileCap::PipeWrite(p) => {
            kernel.pipes[p].dup_write_end();
        },
        _ => {},
    }
    proof {
        let pre = *old(kernel);
        let tbl0 = pre.tasks@[ci as int].fd_table@;
        let t2 = TaskControlBlock {
            fd_table: mid.tasks@[ci as int].fd_table,
            ..pre.tasks@[ci as int]
        };
        assert(kernel.tasks@ =~= pre.tasks@.update(ci as int, t2));
        if new_fd < tbl0.len() {
            assert(t2.fd_table@ =~= tbl0.update(new_fd as int, Some(cap)));
        } else {
            assert(t2.fd_table@ =~= tbl0.push(Some(cap)));
        }
        assert(t2.wf());
        assert(crate::kernel::caps_ok(t2, kernel.pipes@.len() as int)) by {
            assert forall|f: int| 0 <= f < t2.fd_table@.len() implies match #[trigger] t2.fd_table@[f] {
                Some(FileCap::PipeRead(q)) => q < kernel.pipes@.len() as int,
                Some(FileCap::PipeWrite(q)) => q < kernel.pipes@.len() as int,
                _ => true,
            } by {
                if f != new_fd {
                    assert(t2.fd_table@[f] == tbl0[f]);
                } else {
                    assert(t2.fd_table@[f] == Some(cap));
                    assert(tbl0[fd as int] == Some(cap));
                }
            }
        }
        lemma_update_current_wf(pre, *kernel, t2);
    }
    new_fd as isize
}

/// What `sys_pipe` did: a fresh empty pipe in the registry, its read end
/// in the lowest free slot and its write end in the next one.
pub open spec fn sys_pipe_spec(pre: Kernel, post: Kernel, r: (isize, usize, usize)) -> bool {
    let c = pre.task_of(pre.current);
    let np = pre.pipes@.len() as int;
    let tbl = post.task_of(pre.current).fd_table@;
    &&& post.wf()
    &&& post.running_ok()
    &&& r.0 == 0
    &&& post.pipes@.len() == np + 1
    &&& (forall|q: int| 0 <= q < np ==> #[trigger] post.pipes@[q] == pre.pipes@[q])
    &&& post.pipes@[np].buffered() == Seq::<u8>::empty()
    &&& post.pipes@[np].read_end_count() == 1
    &&& post.pipes@[np].write_end_count() == 1
    &&& r.1 < r.2
    &&& (forall|j: int| 0 <= j < r.1 ==> (#[trigger] c.fd_table@[j]) is Some)
    &&& (forall|j: int| r.1 < j < r.2 && j < c.fd_table@.len() ==> (#[trigger] c.fd_table@[j]) is Some)
    &&& r.2 <= c.fd_table@.len() + 1
    &&& tbl.len() == vstd::math::max(c.fd_table@.len() as int, r.2 + 1)
    &&& tbl[r.1 as int] == Some(FileCap::PipeRead(pre.pipes@.len() as usize))
    &&& tbl[r.2 as int] == Some(FileCap::PipeWrite(pre.pipes@.len() as usize))
    &&& (forall|j: int|
        0 <= j < c.fd_table@.len() && j != r.1 && j != r.2 ==> #[trigger] tbl[j]
            == c.fd_table@[j])
    &&& post.task_of(pre.current) == (TaskControlBlock {
        fd_table: post.task_of(pre.current).fd_table,
        ..c
    })
    &&& (forall|p: usize| #[trigger] post.has_task(p) == pre.has_task(p))
    &&& (forall|p: usize|
        p != pre.current && pre.has_task(p) ==> (#[trigger] post.task_of(p)) == pre.task_of(p))
    &&& post.manager == pre.manager
    &&& post.current == pre.current
    &&& post.next_pid == pre.next_pid
}

/// Creates a pipe for the running task: the read end lands in the lowest
/// free descriptor slot, the write end in the next free one; both
/// descriptor numbers are handed back for the trap handler to copy out.
#[verifier::rlimit(60)]
pub fn sys_pipe(kernel: &mut Kernel) -> (r: (isize, usize, usize))
    requires
        old(kernel).wf(),
        old(kernel).running_ok(),
        old(kernel).task_of(old(kernel).current).fd_table@.len() + 2 < usize::MAX,
    ensures
        sys_pipe_spec(*old(kernel), *final(kernel), r),
{
    let ci = kernel.task_index_must(kernel.current);
    proof {
        assert(old(kernel).tasks@[ci as int].wf());
        assert(crate::kernel::caps_ok(
            old(kernel).tasks@[ci as int],
            old(kernel).pipes@.len() as int,
        ));
    }
    let p = kernel.pipes.len();
    kernel.pipes.push(make_pipe());
    proof {
        crate::kernel::lemma_update_pipes_wf(*old(kernel), *kernel);
    }
    let ghost k1 = *kernel;
    let read_fd = kernel.tasks[ci].alloc_fd();
    proof {
        let tbl0 = old(kernel).tasks@[ci as int].fd_table@;
        let tbla = kernel.tasks@[ci as int].fd_table@;
        assert forall|j: int| 0 <= j < read_fd implies (#[trigger] tbl0[j]) is Some by {
            assert(tbla[j] is Some);
            assert(tbla[j] == tbl0[j]);
        }
        if read_fd < tbl0.len() {
            assert(tbl0[read_fd as int] == tbla[read_fd as int]);
            assert(tbl0[read_fd as int] is None);
        }
    }
    kernel.tasks[ci].fd_table[read_fd] = Some(FileCap::PipeRead(p));
    let ghost k2 = *kernel;
    let write_fd = kernel.tasks[ci].alloc_fd();
    proof {
        let tbl0 = old(kernel).tasks@[ci as int].fd_table@;
        let tblb = k2.tasks@[ci as int].fd_table@;
        let tblc = kernel.tasks@[ci as int].fd_table@;
        assert(write_fd > read_fd) by {
            assert(tblb[read_fd as int] is Some);
            assert(tblc[read_fd as int] == tblb[read_fd as int]);
        }
        assert forall|j: int|
            read_fd < j < write_fd && j < tbl0.len() implies (#[trigger] tbl0[j]) is Some by {
            assert(tblc[j] is Some);
            assert(tblc[j] == tblb[j]);
            assert(tblb[j] == tbl0[j]);
        }
    }
    kernel.tasks[ci].fd_table[write_fd] = Some(FileCap::PipeWrite(p));
    proof {
        let pre = *old(kernel);
        let tbl0 = pre.tasks@[ci as int].fd_table@;
        let t2 = TaskControlBlock {
            fd_table: kernel.tasks@[ci as int].fd_table,
            ..pre.tasks@[ci as int]
        };
        assert(kernel.tasks@ =~= pre.tasks@.update(ci as int, t2));
        assert(read_fd < write_fd);
        assert(t2.fd_table@[read_fd as int] == Some(FileCap::PipeRead(p)));
        assert(t2.fd_table@[write_fd as int] == Some(FileCap::PipeWrite(p)));
        assert forall|j: int|
            0 <= j < tbl0.len() && j != read_fd && j != write_fd implies #[trigger] t2.fd_table@[j]
            == tbl0[j] by {}
        assert(t2.wf());
        assert(crate::kernel::caps_ok(t2, kernel.pipes@.len() as int)) by {
            assert forall|f: int| 0 <= f < t2.fd_table@.len() implies match #[trigger] t2.fd_table@[f] {
                Some(FileCap::PipeRead(q)) => q < kernel.pipes@.len() as int,
                Some(FileCap::PipeWrite(q)) => q < kernel.pipes@.len() as int,
                _ => true,
            } by {
                if f != read_fd && f != write_fd && f < tbl0.len() {
                    assert(t2.fd_table@[f] == tbl0[f]);
                }
            }
        }
        lemma_update_current_wf(k1, *kernel, t2);
        assert forall|p2: usize| #[trigger] kernel.has_task(p2) == pre.has_task(p2) by {
            assert(kernel.has_task(p2) == k1.has_task(p2));
        }
    }
    (0, read_fd, write_fd)
}

/// What `mailread` did.
pub open spec fn mailread_spec(
    pre: Kernel,
    post: Kernel,
    buf: int,
    len: int,
    r0: isize,
    out: Seq<u8>,
) -> bool {
    let c = pre.task_of(pre.current);
    let pend = c.mailbox.pending();
    &&& post.wf()
    &&& post.running_ok()
    &&& (pend.len() == 0 ==> r0 == -1 && out == Seq::<u8>::empty() && same_kernel(pre, post))
    &&& (pend.len() > 0 && len == 0 ==> r0 == 0 && out == Seq::<u8>::empty() && same_kernel(
        pre,
        post,
    ))
    &&& (pend.len() > 0 && len > 0 ==> ({
        let lcap = vstd::math::min(len, MAX_MAIL_LENGTH as int);
        &&& (!spec_buf_ok(c.address_space, buf, lcap) ==> r0 == -1 && out == Seq::<u8>::empty()
            && same_kernel(pre, post))
        &&& (spec_buf_ok(c.address_space, buf, lcap) ==> ({
            let n = vstd::math::min(pend[0].len() as int, lcap);
            &&& r0 == n
            &&& out == pend[0].take(n)
            &&& post.task_of(pre.current).mailbox.pending() == pend.skip(1)
            &&& post.task_of(pre.current) == (TaskControlBlock {
                mailbox: post.task_of(pre.current).mailbox,
                ..c
            })
            &&& (forall|p: usize| #[trigger] post.has_task(p) == pre.has_task(p))
            &&& (forall|p: usize|
                p != pre.current && pre.has_task(p) ==> (#[trigger] post.task_of(p))
                    == pre.task_of(p))
            &&& post.manager == pre.manager
            &&& post.pipes == pre.pipes
            &&& post.current == pre.current
            &&& post.next_pid == pre.next_pid
        }))
    }))
}

/// Reads the oldest message of the calling task's mailbox into the user
/// range at `buf`; fails with `-1` when no message is pending or the
/// range is not accessible, and moves at most 256 bytes.
#[verifier::rlimit(60)]
pub fn mailread(kernel: &mut Kernel, buf: usize, len: usize) -> (r: (isize, Vec<u8>))
    requires
        old(kernel).wf(),
        old(kernel).running_ok(),
    ensures
        mailread_spec(*old(kernel), *final(kernel), buf as int, len as int, r.0, r.1@),
{
    let ci = kernel.task_index_must(kernel.current);
    proof {
        assert(old(kernel).tasks@[ci as int].wf());
        assert(crate::kernel::caps_ok(
            old(kernel).tasks@[ci as int],
            old(kernel).pipes@.len() as int,
        ));
    }
    if kernel.tasks[ci].mailbox.is_empty() {
        return (-1, Vec::new());
    }
    if len == 0 {
        return (0, Vec::new());
    }
    let lcap = if len > MAX_MAIL_LENGTH {
        MAX_MAIL_LENGTH
    } else {
        len
    };
    if !kernel.tasks[ci].address_space.check_buf(buf, lcap) {
        return (-1, Vec::new());
    }
    let (n, out) = kernel.tasks[ci].mailbox.read_message(lcap);
    proof {
        let pre = *old(kernel);
        let t2 = TaskControlBlock {
            mailbox: kernel.tasks@[ci as int].mailbox,
            ..pre.tasks@[ci as int]
        };
        assert(kernel.tasks@ =~= pre.tasks@.update(ci as int, t2));
        assert(t2.wf());
        assert(crate::kernel::caps_ok(t2, kernel.pipes@.len() as int)) by {
            assert forall|f: int| 0 <= f < t2.fd_table@.len() implies match #[trigger] t2.fd_table@[f] {
                Some(FileCap::PipeRead(q)) => q < kernel.pipes@.len() as int,
                Some(FileCap::PipeWrite(q)) => q < kernel.pipes@.len() as int,
                _ => true,
            } by {
                assert(t2.fd_table@[f] == pre.tasks@[ci as int].fd_table@[f]);
            }
        }
        lemma_update_current_wf(pre, *kernel, t2);
    }
    (n, out)
}

/// What `mailwrite` did. A target is known when it is the caller itself
/// or a task of the ready registry.
pub open spec fn mailwrite_spec(
    pre: Kernel,
    post: Kernel,
    pid: usize,
    buf: int,
    data: Seq<u8>,
    r: isize,
) -> bool {
    let c = pre.task_of(pre.current);
    let known = pid == pre.current || (exists|qi: int|
        0 <= qi < pre.manager.queue().len() && (#[trigger] pre.manager.queue()[qi]).id == pid);
    &&& post.wf()
    &&& post.running_ok()
    &&& (!known ==> r == -1 && same_kernel(pre, post))
    &&& (known ==> ({
        let tpend = pre.task_of(pid).mailbox.pending();
        &&& (tpend.len() == MAILBOX_BUFFER_SIZE ==> r == -1 && same_kernel(pre, post))
        &&& (tpend.len() < MAILBOX_BUFFER_SIZE && data.len() == 0 ==> r == 0 && same_kernel(
            pre,
            post,
        ))
        &&& (tpend.len() < MAILBOX_BUFFER_SIZE && data.len() > 0 ==> ({
            let lcap = vstd::math::min(data.len() as int, MAX_MAIL_LENGTH as int);
            &&& (!spec_buf_ok(c.address_space, buf, lcap) ==> r == -1 && same_kernel(pre, post))
            &&& (spec_buf_ok(c.address_space, buf, lcap) ==> ({
                &&& r == lcap
                &&& post.task_of(pid).mailbox.pending() == tpend.push(data.take(lcap))
                &&& post.task_of(pid) == (TaskControlBlock {
                    mailbox: post.task_of(pid).mailbox,
                    ..pre.task_of(pid)
                })
                &&& (forall|p: usize| #[trigger] post.has_task(p) == pre.has_task(p))
                &&& (forall|p: usize|
                    p != pid && pre.has_task(p) ==> (#[trigger] post.task_of(p)) == pre.task_of(
                        p,
                    ))
                &&& post.manager == pre.manager
                &&& post.pipes == pre.pipes
                &&& post.current == pre.current
                &&& post.next_pid == pre.next_pid
            }))
        }))
    }))
}

/// Writes `data`, fetched from the caller's user range at `buf`, as one
/// message into the mailbox of task `pid`. Writing to oneself needs no
/// lookup; any other target must be found in the ready registry. The
/// payload is truncated to 256 bytes; a full target mailbox fails with
/// `-1`.
#[verifier::rlimit(80)]
pub fn mailwrite(kernel: &mut Kernel, pid: usize, buf: usize, data: &Vec<u8>) -> (r: isize)
    requires
        old(kernel).wf(),
        old(kernel).running_ok(),
    ensures
        mailwrite_spec(*old(kernel), *final(kernel), pid, buf as int, data@, r),
{
    let ci = kernel.task_index_must(kernel.current);
    let ti: usize;
    if pid == kernel.current {
        ti = ci;
    } else {
        match kernel.manager.get(pid) {
            None => {
                return -1;
            },
            Some(e) => {
                proof {
                    let qi = choose|qi: int|
                        0 <= qi < kernel.manager.queue().len() && (
                        #[trigger] kernel.manager.queue()[qi]) == e && e.id == pid;
                    assert(old(kernel).queue_entry_ok(kernel.manager.queue()[qi]));
                }
                ti = kernel.task_index_must(pid);
            },
        }
    }
    proof {
        assert(old(kernel).tasks@[ti as int].wf());
        assert(old(kernel).tasks@[ci as int].wf());
        assert(old(kernel).task_of(pid) == old(kernel).tasks@[ti as int]);
    }
    if kernel.tasks[ti].mailbox.is_full() {
        return -1;
    }
    if data.len() == 0 {
        return 0;
    }
    let lcap = if data.len() > MAX_MAIL_LENGTH {
        MAX_MAIL_LENGTH
    } else {
        data.len()
    };
    if !kernel.tasks[ci].address_space.check_buf(buf, lcap) {
        return -1;
    }
    let r = kernel.tasks[ti].mailbox.write_message(data);
    proof {
        let pre = *old(kernel);
        let t2 = TaskControlBlock {
            mailbox: kernel.tasks@[ti as int].mailbox,
            ..pre.tasks@[ti as int]
        };
        assert(kernel.tasks@ =~= pre.tasks@.update(ti as int, t2));
        assert(t2.wf());
        assert(crate::kernel::caps_ok(t2, kernel.pipes@.len() as int)) by {
            assert forall|f: int| 0 <= f < t2.fd_table@.len() implies match #[trigger] t2.fd_table@[f] {
                Some(FileCap::PipeRead(q)) => q < kernel.pipes@.len() as int,
                Some(FileCap::PipeWrite(q)) => q < kernel.pipes@.len() as int,
                _ => true,
            } by {
                assert(t2.fd_table@[f] == pre.tasks@[ti as int].fd_table@[f]);
            }
        }
        crate::kernel::lemma_update_task_wf(pre, *kernel, pid, t2);
    }
    r
}

/// What `sys_open` did with the external file system's answer.
pub open spec fn sys_open_spec(
    pre: Kernel,
    post: Kernel,
    opened: Option<(usize, bool, bool)>,
    r: isize,
) -> bool {
    let c = pre.task_of(pre.current);
    &&& post.wf()
    &&& post.running_ok()
    &&& (opened is None ==> r == -1 && same_kernel(pre, post))
    &&& (opened matches Some((handle, readable, writable)) ==> ({
        &&& r >= 0
        &&& (forall|j: int| 0 <= j < r ==> (#[trigger] c.fd_table@[j]) is Some)
        &&& (r < c.fd_table@.len() ==> c.fd_table@[r as int] is None)
        &&& r <= c.fd_table@.len()
        &&& post.task_of(pre.current).fd_table@ == (if r < c.fd_table@.len() {
            c.fd_table@.update(r as int, Some(FileCap::Inode { handle, readable, writable }))
        } else {
            c.fd_table@.push(Some(FileCap::Inode { handle, readable, writable }))
        })
        &&& post.task_of(pre.current) == (TaskControlBlock {
            fd_table: post.task_of(pre.current).fd_table,
            ..c
        })
        &&& (forall|p: usize| #[trigger] post.has_task(p) == pre.has_task(p))
        &&& (forall|p: usize|
            p != pre.current && pre.has_task(p) ==> (#[trigger] post.task_of(p)) == pre.task_of(
                p,
            ))
        &&& post.manager == pre.manager
        &&& post.pipes == pre.pipes
        &&& post.current == pre.current
        &&& post.next_pid == pre.next_pid
    }))
}

/// Installs the inode the external file system opened — its handle and
/// granted access mode — into the lowest free descriptor slot of the
/// running task; `None` (no such file) fails with `-1`.
#[verifier::rlimit(60)]
pub fn sys_open(kernel: &mut Kernel, opened: Option<(usize, bool, bool)>) -> (r: isize)
    requires
        old(kernel).wf(),
        old(kernel).running_ok(),
        old(kernel).task_of(old(kernel).current).fd_table@.len() < (isize::MAX as usize),
    ensures
        sys_open_spec(*old(kernel), *final(kernel), opened, r),
{
    let (handle, readable, writable) = match opened {
        None => {
            return -1;
        },
        Some(t) => t,
    };
    let ci = kernel.task_index_must(kernel.current);
    proof {
        assert(old(kernel).tasks@[ci as int].wf());
        assert(crate::kernel::caps_ok(
            old(kernel).tasks@[ci as int],
            old(kernel).pipes@.len() as int,
        ));
    }
    let fd = kernel.tasks[ci].alloc_fd();
    proof {
        let tbl0 = old(kernel).tasks@[ci as int].fd_table@;
        let tbla = kernel.tasks@[ci as int].fd_table@;
        assert forall|j: int| 0 <= j < fd implies (#[trigger] tbl0[j]) is Some by {
            assert(tbla[j] is Some);
            assert(tbla[j] == tbl0[j]);
        }
        if fd < tbl0.len() {
            assert(tbl0[fd as int] == tbla[fd as int]);
            assert(tbl0[fd as int] is None);
        }
    }
    kernel.tasks[ci].fd_table[fd] = Some(FileCap::Inode { handle, readable, writable });
    proof {
        let pre = *old(kernel);
        let tbl0 = pre.tasks@[ci as int].fd_table@;
        let t2 = TaskControlBlock {
            fd_table: kernel.tasks@[ci as int].fd_table,
            ..pre.tasks@[ci as int]
        };
        assert(kernel.tasks@ =~= pre.tasks@.update(ci as int, t2));
        if fd < tbl0.len() {
            assert(t2.fd_table@ =~= tbl0.update(
                fd as int,
                Some(FileCap::Inode { handle, readable, writable }),
            ));
        } else {
            assert(t2.fd_table@ =~= tbl0.push(
                Some(FileCap::Inode { handle, readable, writable }),
            ));
        }
        assert(t2.wf());
        assert(crate::kernel::caps_ok(t2, kernel.pipes@.len() as int)) by {
            assert forall|f: int| 0 <= f < t2.fd_table@.len() implies match #[trigger] t2.fd_table@[f] {
                Some(FileCap::PipeRead(q)) => q < kernel.pipes@.len() as int,
                Some(FileCap::PipeWrite(q)) => q < kernel.pipes@.len() as int,
                _ => true,
            } by {
                if f != fd {
                    assert(t2.fd_table@[f] == tbl0[f]);
                }
            }
        }
        lemma_update_current_wf(pre, *kernel, t2);
    }
    fd as isize
}

} // verus!
