use kernel_core::addrspace::AddressSpace;
use kernel_core::config::BIG_STRIDE;
use kernel_core::config::TIME_BUDGET_MS;
use kernel_core::kernel::create;
use kernel_core::kernel::exec;
use kernel_core::kernel::fork;
use kernel_core::kernel::get_current_task;
use kernel_core::kernel::run_first_task;
use kernel_core::kernel::spawn;
use kernel_core::kernel::waitpid;
use kernel_core::kernel::Kernel;
use kernel_core::kernel::ROOT_PID;
use kernel_core::syscall_process::setpriority;
use kernel_core::syscall_process::sys_exec;
use kernel_core::syscall_process::sys_exit;
use kernel_core::syscall_process::sys_getpid;
use kernel_core::syscall_process::sys_yield;
use kernel_core::task::TaskStatus;

fn boot(n: usize) -> Kernel {
    let mut k = Kernel::new();
    let mut i = 0;
    while i < n {
        create(&mut k, AddressSpace::new(), 0x1000 + i);
        i += 1;
    }
    run_first_task(&mut k);
    k
}

fn task_field<'a>(k: &'a Kernel, pid: usize) -> &'a kernel_core::task::TaskControlBlock {
    let mut i = 0;
    while i < k.tasks.len() {
        if k.tasks[i].pid == pid {
            return &k.tasks[i];
        }
        i += 1;
    }
    panic!("no task with pid {}", pid);
}

#[test]
fn first_task_is_the_first_created() {
    let k = boot(3);
    assert_eq!(get_current_task(&k), ROOT_PID);
    assert_eq!(task_field(&k, ROOT_PID).task_status, TaskStatus::Running);
}

#[test]
fn yield_charges_exact_stride_and_quantum() {
    let mut k = boot(2);
    assert_eq!(setpriority(&mut k, 4), 4);
    sys_yield(&mut k);
    let a = task_field(&k, 1);
    assert_eq!(a.pass, BIG_STRIDE / 4);
    assert_eq!(a.exec_time_ms, 10);
    // the zero-pass second task was dispatched
    assert_eq!(get_current_task(&k), 2);
    sys_yield(&mut k);
    let b = task_field(&k, 2);
    assert_eq!(b.pass, BIG_STRIDE / 16);
    assert_eq!(b.exec_time_ms, 10);
}

#[test]
fn scheduler_always_selects_minimum_pass() {
    let mut k = boot(2);
    assert_eq!(setpriority(&mut k, 4), 4);
    // task 1 pays 250 per yield, task 2 (default priority 16) pays 62
    sys_yield(&mut k);
    assert_eq!(get_current_task(&k), 2);
    // task 2 stays minimal until its pass passes 250: 62, 124, 186, 248, 310
    for _ in 0..4 {
        sys_yield(&mut k);
        assert_eq!(get_current_task(&k), 2);
    }
    sys_yield(&mut k);
    assert_eq!(get_current_task(&k), 1);
    assert_eq!(task_field(&k, 2).pass, 5 * (BIG_STRIDE / 16));
}

#[test]
fn equal_pass_tasks_keep_arrival_order() {
    let mut k = boot(3);
    // all passes equal: selection rotates in arrival order
    assert_eq!(get_current_task(&k), 1);
    sys_yield(&mut k);
    assert_eq!(get_current_task(&k), 2);
    sys_yield(&mut k);
    assert_eq!(get_current_task(&k), 3);
}

#[test]
fn task_reaching_time_budget_is_forced_to_zombie() {
    let mut k = boot(2);
    let mut steps = 0;
    while !k.tasks.iter().any(|t| t.task_status == TaskStatus::Zombie) {
        sys_yield(&mut k);
        steps += 1;
        assert!(steps < 3000, "no task ever reached the budget");
    }
    let z = k
        .tasks
        .iter()
        .find(|t| t.task_status == TaskStatus::Zombie)
        .unwrap();
    assert_eq!(z.exec_time_ms, TIME_BUDGET_MS);
}

#[test]
fn fork_exec_waitpid_exit_round_trip() {
    let mut k = boot(1);
    let child = fork(&mut k);
    assert_eq!(child, 2);
    assert_eq!(task_field(&k, 2).parent, Some(1));
    assert_eq!(task_field(&k, 2).task_status, TaskStatus::Ready);
    assert_eq!(task_field(&k, 1).children, vec![2]);
    // nothing to reap yet: the parent must retry after yielding
    assert_eq!(waitpid(&mut k, 2), (-2, 0));
    sys_yield(&mut k);
    // the child (pass 0) runs now and replaces its image
    assert_eq!(get_current_task(&k), 2);
    exec(&mut k, AddressSpace::new(), 0x7777);
    assert_eq!(task_field(&k, 2).task_cx_ptr, 0x7777);
    sys_exit(&mut k, 7);
    // back in the parent: the wait reaps identity and exit code
    assert_eq!(get_current_task(&k), 1);
    assert_eq!(waitpid(&mut k, 2), (2, 7));
    assert!(k.tasks.iter().all(|t| t.pid != 2));
    assert!(task_field(&k, 1).children.is_empty());
    // the child is gone for good
    assert_eq!(waitpid(&mut k, 2), (-1, 0));
}

#[test]
fn waitpid_any_takes_first_zombie_child() {
    let mut k = boot(1);
    fork(&mut k);
    fork(&mut k);
    assert_eq!(task_field(&k, 1).children, vec![2, 3]);
    assert_eq!(waitpid(&mut k, -1), (-2, 0));
    sys_yield(&mut k);
    assert_eq!(get_current_task(&k), 2);
    sys_exit(&mut k, 11);
    // current is now task 3; drive back to the parent
    assert_eq!(get_current_task(&k), 3);
    sys_yield(&mut k);
    assert_eq!(get_current_task(&k), 1);
    assert_eq!(waitpid(&mut k, -1), (2, 11));
}

#[test]
fn exit_reparents_children_to_root() {
    let mut k = boot(1);
    let b = fork(&mut k);
    sys_yield(&mut k);
    assert_eq!(get_current_task(&k), b);
    let c = fork(&mut k);
    assert_eq!(task_field(&k, c).parent, Some(b));
    sys_exit(&mut k, 0);
    assert_eq!(task_field(&k, c).parent, Some(ROOT_PID));
    assert!(task_field(&k, ROOT_PID).children.contains(&c));
    assert!(task_field(&k, b).children.is_empty());
}

#[test]
fn spawn_creates_ready_child_with_defaults() {
    let mut k = boot(1);
    let pid = spawn(&mut k, AddressSpace::new(), 0x4321);
    assert_eq!(pid, 2);
    let t = task_field(&k, pid);
    assert_eq!(t.task_status, TaskStatus::Ready);
    assert_eq!(t.parent, Some(1));
    assert_eq!(t.pass, 0);
    assert_eq!(t.task_cx_ptr, 0x4321);
    assert!(task_field(&k, 1).children.contains(&pid));
}

#[test]
fn setpriority_rejects_one_and_below() {
    let mut k = boot(1);
    let before = task_field(&k, 1).priority;
    assert_eq!(setpriority(&mut k, 1), -1);
    assert_eq!(setpriority(&mut k, 0), -1);
    assert_eq!(setpriority(&mut k, -5), -1);
    assert_eq!(task_field(&k, 1).priority, before);
    assert_eq!(setpriority(&mut k, 3), 3);
    assert_eq!(task_field(&k, 1).priority, 3);
}

#[test]
fn fork_duplicates_descriptor_table_and_priority() {
    let mut k = boot(1);
    assert_eq!(setpriority(&mut k, 5), 5);
    let child = fork(&mut k);
    let parent_fds = task_field(&k, 1).fd_table.clone();
    let t = task_field(&k, child);
    assert_eq!(t.fd_table, parent_fds);
    assert_eq!(t.priority, 5);
    assert_eq!(t.exec_time_ms, 0);
}

#[test]
fn getpid_names_the_running_task() {
    let mut k = boot(2);
    assert_eq!(sys_getpid(&k), 1);
    sys_yield(&mut k);
    assert_eq!(sys_getpid(&k), 2);
}

#[test]
fn sys_exec_replaces_image_or_fails_as_noop() {
    let mut k = boot(1);
    let before_cx = task_field(&k, 1).task_cx_ptr;
    // the loader could not produce an image: error, nothing changes
    assert_eq!(sys_exec(&mut k, None), -1);
    assert_eq!(task_field(&k, 1).task_cx_ptr, before_cx);
    // a loaded image replaces the space and entry context in place
    assert_eq!(sys_exec(&mut k, Some((AddressSpace::new(), 0x9999))), 0);
    assert_eq!(task_field(&k, 1).task_cx_ptr, 0x9999);
    assert_eq!(task_field(&k, 1).pid, 1);
}
