use kernel_core::addrspace::AddressSpace;
use kernel_core::config::PAGE_SIZE;
use kernel_core::fs::FileCap;
use kernel_core::kernel::create;
use kernel_core::kernel::get_current_task;
use kernel_core::kernel::run_first_task;
use kernel_core::kernel::Kernel;
use kernel_core::syscall::syscall;
use kernel_core::syscall::SyscallOutcome;
use kernel_core::syscall::SYSCALL_EXIT;
use kernel_core::syscall::SYSCALL_FORK;
use kernel_core::syscall::SYSCALL_GETPID;
use kernel_core::syscall::SYSCALL_GET_TIME;
use kernel_core::syscall::SYSCALL_MMAP;
use kernel_core::syscall::SYSCALL_OPEN;
use kernel_core::syscall::SYSCALL_SET_PRIORITY;
use kernel_core::syscall::SYSCALL_WAITPID;
use kernel_core::syscall::SYSCALL_YIELD;
use kernel_core::syscall_fs::mailread;
use kernel_core::syscall_fs::mailwrite;
use kernel_core::syscall_fs::sys_close;
use kernel_core::syscall_fs::sys_dup;
use kernel_core::syscall_fs::sys_open;
use kernel_core::syscall_fs::sys_pipe;
use kernel_core::syscall_fs::sys_read;
use kernel_core::syscall_fs::sys_write;
use kernel_core::syscall_fs::ReadResult;
use kernel_core::syscall_fs::WriteResult;
use kernel_core::syscall_process::gettime;
use kernel_core::syscall_process::sys_get_time;
use kernel_core::syscall_process::sys_yield;
use kernel_core::syscall_process::TimeVal;

const BUF: usize = 0x10000;

fn boot_mapped(n: usize) -> Kernel {
    let mut k = Kernel::new();
    let mut i = 0;
    while i < n {
        create(&mut k, AddressSpace::new(), 0x1000 + i);
        i += 1;
    }
    run_first_task(&mut k);
    k
}

fn map_current(k: &mut Kernel) {
    assert_eq!(kernel_core::syscall_process::mmap(k, BUF, PAGE_SIZE, 3), 0);
}

#[test]
fn pipe_transfers_bytes_in_order() {
    let mut k = boot_mapped(1);
    map_current(&mut k);
    let (v, rfd, wfd) = sys_pipe(&mut k);
    assert_eq!(v, 0);
    assert_eq!((rfd, wfd), (3, 4));
    let payload = vec![10u8, 20, 30];
    assert!(matches!(sys_write(&mut k, wfd, BUF, &payload), WriteResult::Done(3)));
    match sys_read(&mut k, rfd, BUF, 16) {
        ReadResult::Done(n, out) => {
            assert_eq!(n, 3);
            assert_eq!(out, payload);
        },
        _ => panic!("pipe read did not complete"),
    }
    // empty pipe with the write end still open: retry after yielding
    assert!(matches!(sys_read(&mut k, rfd, BUF, 16), ReadResult::Retry));
}

#[test]
fn pipe_signals_end_of_stream_and_broken_pipe() {
    let mut k = boot_mapped(1);
    map_current(&mut k);
    let (_, rfd, wfd) = sys_pipe(&mut k);
    assert_eq!(sys_close(&mut k, wfd), 0);
    assert!(matches!(sys_read(&mut k, rfd, BUF, 8), ReadResult::Done(0, _)));
    assert_eq!(sys_close(&mut k, rfd), 0);
    // a second close of the same slot fails
    assert_eq!(sys_close(&mut k, rfd), -1);
    let (_, rfd2, wfd2) = sys_pipe(&mut k);
    assert_eq!(sys_close(&mut k, rfd2), 0);
    assert!(matches!(sys_write(&mut k, wfd2, BUF, &vec![1u8]), WriteResult::Done(-1)));
}

#[test]
fn pipe_write_fills_buffer_and_retries() {
    let mut k = boot_mapped(1);
    map_current(&mut k);
    let (_, _rfd, wfd) = sys_pipe(&mut k);
    let big: Vec<u8> = (0..40).map(|i| i as u8).collect();
    // only the buffer capacity is accepted
    assert!(matches!(sys_write(&mut k, wfd, BUF, &big), WriteResult::Done(32)));
    assert!(matches!(sys_write(&mut k, wfd, BUF, &vec![1u8]), WriteResult::Retry));
}

#[test]
fn dup_shares_the_pipe_end() {
    let mut k = boot_mapped(1);
    map_current(&mut k);
    let (_, rfd, wfd) = sys_pipe(&mut k);
    let wfd2 = sys_dup(&mut k, wfd);
    assert_eq!(wfd2, 5);
    assert_eq!(sys_close(&mut k, wfd), 0);
    // one write end is still open: an empty read retries
    assert!(matches!(sys_read(&mut k, rfd, BUF, 8), ReadResult::Retry));
    assert_eq!(sys_close(&mut k, wfd2 as usize), 0);
    assert!(matches!(sys_read(&mut k, rfd, BUF, 8), ReadResult::Done(0, _)));
}

#[test]
fn write_to_console_and_read_from_console_delegate() {
    let mut k = boot_mapped(1);
    map_current(&mut k);
    assert!(matches!(sys_write(&mut k, 1, BUF, &vec![65u8, 66]), WriteResult::Console(2)));
    assert!(matches!(sys_read(&mut k, 0, BUF, 5), ReadResult::Console(5)));
    // stdin is not writable, stdout is not readable
    assert!(matches!(sys_write(&mut k, 0, BUF, &vec![65u8]), WriteResult::Done(-1)));
    assert!(matches!(sys_read(&mut k, 1, BUF, 5), ReadResult::Done(-1, _)));
}

#[test]
fn transfers_require_an_accessible_buffer() {
    let mut k = boot_mapped(1);
    // nothing mapped: every pointer is rejected
    assert!(matches!(sys_write(&mut k, 1, 0x5000, &vec![1u8]), WriteResult::Done(-1)));
    assert!(matches!(sys_read(&mut k, 0, 0x5000, 4), ReadResult::Done(-1, _)));
    assert_eq!(mailwrite(&mut k, 1, 0x5000, &vec![1u8]), -1);
}

#[test]
fn bad_descriptors_are_rejected() {
    let mut k = boot_mapped(1);
    map_current(&mut k);
    assert!(matches!(sys_write(&mut k, 99, BUF, &vec![1u8]), WriteResult::Done(-1)));
    assert!(matches!(sys_read(&mut k, 99, BUF, 4), ReadResult::Done(-1, _)));
    assert_eq!(sys_close(&mut k, 99), -1);
    assert_eq!(sys_dup(&mut k, 99), -1);
}

#[test]
fn open_installs_an_inode_capability() {
    let mut k = boot_mapped(1);
    map_current(&mut k);
    assert_eq!(sys_open(&mut k, None), -1);
    let fd = sys_open(&mut k, Some((7, true, false)));
    assert_eq!(fd, 3);
    assert_eq!(
        k.tasks[0].fd_table[3],
        Some(FileCap::Inode { handle: 7, readable: true, writable: false })
    );
    assert!(matches!(sys_read(&mut k, 3, BUF, 5), ReadResult::Disk(7, 5)));
    assert!(matches!(sys_write(&mut k, 3, BUF, &vec![1u8]), WriteResult::Done(-1)));
    assert_eq!(sys_close(&mut k, 3), 0);
    // the slot is the lowest free one again
    assert_eq!(sys_open(&mut k, Some((8, false, true))), 3);
}

#[test]
fn mail_crosses_processes_exactly_once() {
    let mut k = boot_mapped(2);
    map_current(&mut k);
    let msg = vec![1u8, 2, 3, 4, 5, 6, 7, 8, 9, 10];
    // task 1 writes ten bytes to task 2's mailbox
    assert_eq!(mailwrite(&mut k, 2, BUF, &msg), 10);
    sys_yield(&mut k);
    assert_eq!(get_current_task(&k), 2);
    map_current(&mut k);
    let (n, out) = mailread(&mut k, BUF, 20);
    assert_eq!(n, 10);
    assert_eq!(out, msg);
    let (n2, _) = mailread(&mut k, BUF, 20);
    assert_eq!(n2, -1);
}

#[test]
fn mail_to_self_needs_no_lookup() {
    let mut k = boot_mapped(1);
    map_current(&mut k);
    assert_eq!(mailwrite(&mut k, 1, BUF, &vec![42u8]), 1);
    let (n, out) = mailread(&mut k, BUF, 4);
    assert_eq!(n, 1);
    assert_eq!(out, vec![42u8]);
}

#[test]
fn mail_to_unknown_process_fails() {
    let mut k = boot_mapped(1);
    map_current(&mut k);
    assert_eq!(mailwrite(&mut k, 99, BUF, &vec![1u8]), -1);
}

#[test]
fn mail_write_fails_once_target_is_full() {
    let mut k = boot_mapped(2);
    map_current(&mut k);
    for _ in 0..16 {
        assert_eq!(mailwrite(&mut k, 2, BUF, &vec![7u8]), 1);
    }
    assert_eq!(mailwrite(&mut k, 2, BUF, &vec![7u8]), -1);
}

#[test]
fn mail_length_zero_returns_zero() {
    let mut k = boot_mapped(1);
    assert_eq!(mailwrite(&mut k, 1, BUF, &Vec::new()), 0);
    let (n, _) = mailread(&mut k, BUF, 0);
    assert_eq!(n, -1);
}

#[test]
fn dispatcher_routes_opcodes() {
    let mut k = boot_mapped(2);
    let none: Vec<u8> = Vec::new();
    match syscall(&mut k, SYSCALL_GETPID, [0; 5], &none, 0) {
        SyscallOutcome::Value(v) => assert_eq!(v, 1),
        _ => panic!("getpid must return a value"),
    }
    match syscall(&mut k, SYSCALL_GET_TIME, [0; 5], &none, 2_500_000) {
        SyscallOutcome::Time(v, ts) => {
            assert_eq!(v, 0);
            assert_eq!(ts, TimeVal { sec: 2, usec: 500_000 });
        },
        _ => panic!("gettime must return a time"),
    }
    match syscall(&mut k, SYSCALL_MMAP, [BUF, PAGE_SIZE, 3, 0, 0], &none, 0) {
        SyscallOutcome::Value(v) => assert_eq!(v, 0),
        _ => panic!("mmap must return a value"),
    }
    match syscall(&mut k, SYSCALL_SET_PRIORITY, [9, 0, 0, 0, 0], &none, 0) {
        SyscallOutcome::Value(v) => assert_eq!(v, 9),
        _ => panic!("set_priority must return a value"),
    }
    match syscall(&mut k, SYSCALL_YIELD, [0; 5], &none, 0) {
        SyscallOutcome::Value(v) => assert_eq!(v, 0),
        _ => panic!("yield must return a value"),
    }
    assert_eq!(get_current_task(&k), 2);
    assert!(matches!(
        syscall(&mut k, SYSCALL_OPEN, [0; 5], &none, 0),
        SyscallOutcome::Delegate
    ));
}

#[test]
fn time_conversions_are_exact() {
    let mut ts = TimeVal { sec: 0, usec: 0 };
    assert_eq!(gettime(&mut ts, 3_250_017, 0), 0);
    assert_eq!(ts, TimeVal { sec: 3, usec: 250_017 });
    assert_eq!(sys_get_time(3_250_017), 3250);
}

#[test]
fn dispatcher_runs_fork_wait_exit_scenario() {
    let mut k = boot_mapped(1);
    let none: Vec<u8> = Vec::new();
    match syscall(&mut k, SYSCALL_FORK, [0; 5], &none, 0) {
        SyscallOutcome::Value(v) => assert_eq!(v, 2),
        _ => panic!("fork must return the child identity"),
    }
    assert!(matches!(
        syscall(&mut k, SYSCALL_WAITPID, [2, 0, 0, 0, 0], &none, 0),
        SyscallOutcome::Wait(-2, 0)
    ));
    syscall(&mut k, SYSCALL_YIELD, [0; 5], &none, 0);
    assert_eq!(get_current_task(&k), 2);
    assert!(matches!(
        syscall(&mut k, SYSCALL_EXIT, [7, 0, 0, 0, 0], &none, 0),
        SyscallOutcome::Exited
    ));
    assert_eq!(get_current_task(&k), 1);
    assert!(matches!(
        syscall(&mut k, SYSCALL_WAITPID, [2, 0, 0, 0, 0], &none, 0),
        SyscallOutcome::Wait(2, 7)
    ));
}

#[test]
fn mail_syscall_truncates_long_payloads() {
    let mut k = boot_mapped(1);
    map_current(&mut k);
    let long: Vec<u8> = (0..300).map(|i| (i % 251) as u8).collect();
    assert_eq!(mailwrite(&mut k, 1, BUF, &long), 256);
    let (n, out) = mailread(&mut k, BUF, 512);
    assert_eq!(n, 256);
    assert_eq!(out, long[..256].to_vec());
}
