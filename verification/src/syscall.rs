//! The numeric syscall boundary: one fixed opcode plus raw argument
//! words go in, one operation on the kernel comes out.
//!
//! The dispatcher decides; its caller — the trap handler — performs
//! whatever outside work the outcome names: copying bytes across the
//! user/kernel boundary, driving the console, or delegating to the
//! loader and the on-disk file system, which this core treats as
//! external collaborators.

use vstd::prelude::*;
use crate::kernel::Kernel;
use crate::kernel::fork;
use crate::kernel::forked;
use crate::kernel::waited;
use crate::kernel::waitpid;
use crate::syscall_fs::ReadResult;
use crate::syscall_fs::WriteResult;
use crate::syscall_fs::mailread;
use crate::syscall_fs::mailread_spec;
use crate::syscall_fs::mailwrite;
use crate::syscall_fs::mailwrite_spec;
use crate::syscall_fs::sys_close;
use crate::syscall_fs::sys_close_spec;
use crate::syscall_fs::sys_dup;
use crate::syscall_fs::sys_dup_spec;
use crate::syscall_fs::sys_pipe;
use crate::syscall_fs::sys_pipe_spec;
use crate::syscall_fs::sys_read;
use crate::syscall_fs::sys_read_spec;
use crate::syscall_fs::sys_write;
use crate::syscall_fs::sys_write_spec;
use crate::syscall_process::TimeVal;
use crate::syscall_process::gettime;
use crate::syscall_process::mmap;
use crate::syscall_process::mmap_spec;
use crate::syscall_process::munmap;
use crate::syscall_process::munmap_spec;
use crate::syscall_process::setpriority;
use crate::syscall_process::setpriority_spec;
use crate::syscall_process::sys_exit;
use crate::syscall_process::sys_exit_spec;
use crate::syscall_process::sys_getpid;
use crate::syscall_process::sys_yield;
use crate::syscall_process::sys_yield_spec;

verus! {

pub const SYSCALL_DUP: usize = 24;

pub const SYSCALL_UNLINKAT: usize = 35;

pub const SYSCALL_LINKAT: usize = 37;

pub const SYSCALL_OPEN: usize = 56;

pub const SYSCALL_CLOSE: usize = 57;

pub const SYSCALL_PIPE: usize = 59;

pub const SYSCALL_READ: usize = 63;

pub const SYSCALL_WRITE: usize = 64;

pub const SYSCALL_FSTAT: usize = 80;

pub const SYSCALL_EXIT: usize = 93;

pub const SYSCALL_YIELD: usize = 124;

pub const SYSCALL_SET_PRIORITY: usize = 140;

pub const SYSCALL_GET_TIME: usize = 169;

pub const SYSCALL_GETPID: usize = 172;

pub const SYSCALL_MUNMAP: usize = 215;

pub const SYSCALL_FORK: usize = 220;

pub const SYSCALL_EXEC: usize = 221;

pub const SYSCALL_MMAP: usize = 222;

pub const SYSCALL_WAITPID: usize = 260;

pub const SYSCALL_SPAWN: usize = 400;

pub const SYSCALL_MAIL_READ: usize = 401;

pub const SYSCALL_MAIL_WRITE: usize = 402;

/// What the trap handler must do after a dispatched syscall.
pub enum SyscallOutcome {
    /// A plain return value for the caller.
    Value(isize),
    /// A return value plus bytes to copy into the caller's buffer.
    Data(isize, Vec<u8>),
    /// A read outcome, possibly naming an external source.
    Read(ReadResult),
    /// A write outcome, possibly naming an external sink.
    Write(WriteResult),
    /// A return value plus a wall-clock record to copy out.
    Time(isize, TimeVal),
    /// A return value plus the two fresh pipe descriptors to copy out.
    PipeFds(isize, usize, usize),
    /// A wait result: the reaped identity (or a sentinel) and exit code.
    Wait(isize, i32),
    /// The caller exited; it never resumes.
    Exited,
    /// An operation of an external collaborator (loader or on-disk file
    /// system): the trap handler performs it and re-enters through the
    /// matching library call.
    Delegate,
}

/// The opcodes this kernel dispatches; an unknown opcode is a fatal
/// kernel bug and excluded by precondition.
pub open spec fn is_known_syscall(syscall_id: usize) -> bool {
    ||| syscall_id == SYSCALL_DUP
    ||| syscall_id == SYSCALL_UNLINKAT
    ||| syscall_id == SYSCALL_LINKAT
    ||| syscall_id == SYSCALL_OPEN
    ||| syscall_id == SYSCALL_CLOSE
    ||| syscall_id == SYSCALL_PIPE
    ||| syscall_id == SYSCALL_READ
    ||| syscall_id == SYSCALL_WRITE
    ||| syscall_id == SYSCALL_FSTAT
    ||| syscall_id == SYSCALL_EXIT
    ||| syscall_id == SYSCALL_YIELD
    ||| syscall_id == SYSCALL_SET_PRIORITY
    ||| syscall_id == SYSCALL_GET_TIME
    ||| syscall_id == SYSCALL_GETPID
    ||| syscall_id == SYSCALL_MUNMAP
    ||| syscall_id == SYSCALL_FORK
    ||| syscall_id == SYSCALL_EXEC
    ||| syscall_id == SYSCALL_MMAP
    ||| syscall_id == SYSCALL_WAITPID
    ||| syscall_id == SYSCALL_SPAWN
    ||| syscall_id == SYSCALL_MAIL_READ
    ||| syscall_id == SYSCALL_MAIL_WRITE
}

/// The per-opcode machine limits the trap handler must respect before
/// dispatching.
pub open spec fn dispatch_ok(k: Kernel, syscall_id: usize, args: [usize; 5], data: Seq<u8>) -> bool {
    &&& (syscall_id == SYSCALL_YIELD ==> (k.yield_would_exit() ==> k.manager.queue().len() > 0))
    &&& (syscall_id == SYSCALL_EXIT ==> k.manager.queue().len() > 0)
    &&& (syscall_id == SYSCALL_FORK ==> k.next_pid < (isize::MAX as usize))
    &&& (syscall_id == SYSCALL_WRITE || syscall_id == SYSCALL_MAIL_WRITE ==> data.len() <= (
    isize::MAX as usize))
    &&& (syscall_id == SYSCALL_READ ==> args@[2] <= (isize::MAX as usize))
    &&& (syscall_id == SYSCALL_DUP ==> k.task_of(k.current).fd_table@.len() < (
    isize::MAX as usize))
    &&& (syscall_id == SYSCALL_PIPE ==> k.task_of(k.current).fd_table@.len() + 2 < usize::MAX)
    &&& (syscall_id == SYSCALL_WAITPID ==> (args@[0] as isize == -1 || args@[0] as isize >= 0))
}

/// Decodes one trap: the opcode selects the operation, the raw argument
/// words are interpreted per call, and the outcome tells the trap
/// handler what remains to be done. `data` carries the bytes a
/// write-like call transfers; `now_us` is the external timer's reading.
pub fn syscall(
    kernel: &mut Kernel,
    syscall_id: usize,
    args: [usize; 5],
    data: &Vec<u8>,
    now_us: usize,
) -> (r: SyscallOutcome)
    requires
        old(kernel).wf(),
        old(kernel).running_ok(),
        is_known_syscall(syscall_id),
        dispatch_ok(*old(kernel), syscall_id, args, data@),
    ensures
        syscall_id == SYSCALL_DUP ==> (r matches SyscallOutcome::Value(v) && sys_dup_spec(
            *old(kernel),
            *final(kernel),
            args@[0] as int,
            v,
        )),
        syscall_id == SYSCALL_CLOSE ==> (r matches SyscallOutcome::Value(v) && sys_close_spec(
            *old(kernel),
            *final(kernel),
            args@[0] as int,
            v,
        )),
        syscall_id == SYSCALL_PIPE ==> (r matches SyscallOutcome::PipeFds(v, rf, wf)
            && sys_pipe_spec(*old(kernel), *final(kernel), (v, rf, wf))),
        syscall_id == SYSCALL_READ ==> (r matches SyscallOutcome::Read(step) && sys_read_spec(
            *old(kernel),
            *final(kernel),
            args@[0] as int,
            args@[1] as int,
            args@[2] as int,
            step,
        )),
        syscall_id == SYSCALL_WRITE ==> (r matches SyscallOutcome::Write(step) && sys_write_spec(
            *old(kernel),
            *final(kernel),
            args@[0] as int,
            args@[1] as int,
            data@,
            step,
        )),
        syscall_id == SYSCALL_EXIT ==> (r is Exited && sys_exit_spec(
            *old(kernel),
            *final(kernel),
            args@[0] as i32,
        )),
        syscall_id == SYSCALL_YIELD ==> (r matches SyscallOutcome::Value(v) && sys_yield_spec(
            *old(kernel),
            *final(kernel),
            v,
        )),
        syscall_id == SYSCALL_SET_PRIORITY ==> (r matches SyscallOutcome::Value(v)
            && setpriority_spec(*old(kernel), *final(kernel), args@[0] as isize, v)),
        syscall_id == SYSCALL_GET_TIME ==> (r matches SyscallOutcome::Time(v, ts) && v == 0
            && ts.sec == now_us / crate::syscall_process::USEC_PER_SEC && ts.usec == now_us
            % crate::syscall_process::USEC_PER_SEC && *final(kernel) == *old(kernel)),
        syscall_id == SYSCALL_GETPID ==> (r matches SyscallOutcome::Value(v) && v == old(
            kernel,
        ).current as int && *final(kernel) == *old(kernel)),
        syscall_id == SYSCALL_MMAP ==> (r matches SyscallOutcome::Value(v) && mmap_spec(
            *old(kernel),
            *final(kernel),
            args@[0] as int,
            args@[1] as int,
            args@[2],
            v,
        )),
        syscall_id == SYSCALL_MUNMAP ==> (r matches SyscallOutcome::Value(v) && munmap_spec(
            *old(kernel),
            *final(kernel),
            args@[0] as int,
            args@[1] as int,
            v,
        )),
        syscall_id == SYSCALL_FORK ==> (r matches SyscallOutcome::Value(v) && v == old(
            kernel,
        ).next_pid as int && forked(*old(kernel), *final(kernel), old(kernel).next_pid)),
        syscall_id == SYSCALL_WAITPID ==> (r matches SyscallOutcome::Wait(v, code) && waited(
            *old(kernel),
            *final(kernel),
            args@[0] as isize,
            v,
            code,
        )),
        syscall_id == SYSCALL_MAIL_READ ==> (r matches SyscallOutcome::Data(v, out)
            && mailread_spec(
            *old(kernel),
            *final(kernel),
            args@[0] as int,
            args@[1] as int,
            v,
            out@,
        )),
        syscall_id == SYSCALL_MAIL_WRITE ==> (r matches SyscallOutcome::Value(v)
            && mailwrite_spec(
            *old(kernel),
            *final(kernel),
            args@[0],
            args@[1] as int,
            data@,
            v,
        )),
        syscall_id == SYSCALL_OPEN || syscall_id == SYSCALL_EXEC || syscall_id == SYSCALL_SPAWN
            || syscall_id == SYSCALL_LINKAT || syscall_id == SYSCALL_UNLINKAT || syscall_id
            == SYSCALL_FSTAT ==> r is Delegate && *final(kernel) == *old(kernel),
{
    if syscall_id == SYSCALL_DUP {
        SyscallOutcome::Value(sys_dup(kernel, args[0]))
    } else if syscall_id == SYSCALL_CLOSE {
        SyscallOutcome::Value(sys_close(kernel, args[0]))
    } else if syscall_id == SYSCALL_PIPE {
        let (v, rf, wf) = sys_pipe(kernel);
        SyscallOutcome::PipeFds(v, rf, wf)
    } else if syscall_id == SYSCALL_READ {
        SyscallOutcome::Read(sys_read(kernel, args[0], args[1], args[2]))
    } else if syscall_id == SYSCALL_WRITE {
        SyscallOutcome::Write(sys_write(kernel, args[0], args[1], data))
    } else if syscall_id == SYSCALL_EXIT {
        #[verifier::truncate]
        let code = args[0] as i32;
        sys_exit(kernel, code);
        SyscallOutcome::Exited
    } else if syscall_id == SYSCALL_YIELD {
        SyscallOutcome::Value(sys_yield(kernel))
    } else if syscall_id == SYSCALL_SET_PRIORITY {
        #[verifier::truncate]
        let prio = args[0] as isize;
        SyscallOutcome::Value(setpriority(kernel, prio))
    } else if syscall_id == SYSCALL_GET_TIME {
        let mut ts = TimeVal { sec: 0, usec: 0 };
        let v = gettime(&mut ts, now_us, args[1]);
        SyscallOutcome::Time(v, ts)
    } else if syscall_id == SYSCALL_GETPID {
        SyscallOutcome::Value(sys_getpid(kernel))
    } else if syscall_id == SYSCALL_MMAP {
        SyscallOutcome::Value(mmap(kernel, args[0], args[1], args[2]))
    } else if syscall_id == SYSCALL_MUNMAP {
        SyscallOutcome::Value(munmap(kernel, args[0], args[1]))
    } else if syscall_id == SYSCALL_FORK {
        let child = fork(kernel);
        SyscallOutcome::Value(child as isize)
    } else if syscall_id == SYSCALL_WAITPID {
        #[verifier::truncate]
        let pid = args[0] as isize;
        let (v, code) = waitpid(kernel, pid);
        SyscallOutcome::Wait(v, code)
    } else if syscall_id == SYSCALL_MAIL_READ {
        let (v, out) = mailread(kernel, args[0], args[1]);
        SyscallOutcome::Data(v, out)
    } else if syscall_id == SYSCALL_MAIL_WRITE {
        SyscallOutcome::Value(mailwrite(kernel, args[0], args[1], data))
    } else {
        SyscallOutcome::Delegate
    }
}

} // verus!
