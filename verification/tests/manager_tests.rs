use core::cmp::Ordering;
use kernel_core::fs::File;
use kernel_core::mailbox::Mailbox;
use kernel_core::manager::add_task;
use kernel_core::manager::fetch_task;
use kernel_core::manager::TaskManager;
use kernel_core::task::SchedInfo;

#[test]
fn fetch_takes_minimum_pass_breaking_ties_by_arrival() {
    let mut m = TaskManager::new();
    add_task(&mut m, SchedInfo { id: 1, pass: 5 });
    add_task(&mut m, SchedInfo { id: 2, pass: 3 });
    add_task(&mut m, SchedInfo { id: 3, pass: 3 });
    add_task(&mut m, SchedInfo { id: 4, pass: 9 });
    assert_eq!(fetch_task(&mut m).unwrap().id, 2);
    assert_eq!(fetch_task(&mut m).unwrap().id, 3);
    assert_eq!(fetch_task(&mut m).unwrap().id, 1);
    assert_eq!(fetch_task(&mut m).unwrap().id, 4);
    assert!(fetch_task(&mut m).is_none());
}

#[test]
fn get_looks_up_by_identity() {
    let mut m = TaskManager::new();
    m.add(SchedInfo { id: 7, pass: 1 });
    m.add(SchedInfo { id: 9, pass: 2 });
    assert_eq!(m.get(9).unwrap().pass, 2);
    assert!(m.get(8).is_none());
}

#[test]
fn sched_info_orders_by_pass_alone() {
    let a = SchedInfo { id: 1, pass: 4 };
    let b = SchedInfo { id: 2, pass: 4 };
    let c = SchedInfo { id: 3, pass: 9 };
    assert_eq!(a.cmp(&b), Ordering::Equal);
    assert_eq!(a.cmp(&c), Ordering::Less);
    assert_eq!(c.cmp(&a), Ordering::Greater);
    assert!(a == b);
    assert!(a != c);
    assert_eq!(a.partial_cmp(&c), Some(Ordering::Less));
    assert!(a < c);
}

#[test]
fn mailbox_serves_the_uniform_file_contract() {
    let mut mb = Mailbox::new();
    assert!(mb.readable());
    assert!(mb.writable());
    assert_eq!(File::write(&mut mb, &vec![5u8, 6]), 2);
    let (n, out) = File::read(&mut mb, 8);
    assert_eq!(n, 2);
    assert_eq!(out, vec![5u8, 6]);
    let (n2, _) = File::read(&mut mb, 8);
    assert_eq!(n2, -1);
}
