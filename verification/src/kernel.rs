//! The kernel's process-wide state and its transitions: the process
//! table, the ready set, the pipe registry, and the scheduler.
//!
//! Rather than global, lazily initialized registries, the process-wide
//! state is one explicit value with a defined initialization point,
//! threaded by mutable reference through every operation, so that each
//! transition's contract can speak of the state before and after.

use vstd::prelude::*;
use crate::addrspace::AddressSpace;
use crate::addrspace::spaces_equiv;
use crate::addrspace::mmap_applied;
use crate::addrspace::mmap_rejected;
use crate::addrspace::munmap_applied;
use crate::addrspace::munmap_rejected;
use crate::config::BIG_STRIDE;
use crate::config::DEFAULT_PRIORITY;
use crate::config::TIME_BUDGET_MS;
use crate::config::TIME_QUANTUM_MS;
use crate::fs::FileCap;
use crate::manager::TaskManager;
use crate::manager::is_first_min;
use crate::pipe::Pipe;
use crate::task::SchedInfo;
use crate::task::TaskControlBlock;
use crate::task::TaskStatus;

verus! {

/// Identity of the root task: orphans are reparented to it.
pub const ROOT_PID: usize = 1;

/// No two tasks share an identity.
pub open spec fn seq_pids_unique(s: Seq<TaskControlBlock>) -> bool {
    forall|i: int, j: int|
        0 <= i < j < s.len() ==> (#[trigger] s[i]).pid != (#[trigger] s[j]).pid
}

/// Some task in `s` has identity `pid`.
pub open spec fn seq_has_pid(s: Seq<TaskControlBlock>, pid: usize) -> bool {
    exists|i: int| 0 <= i < s.len() && (#[trigger] s[i]).pid == pid
}

/// Index of the task with identity `pid`.
pub open spec fn seq_idx_of(s: Seq<TaskControlBlock>, pid: usize) -> int {
    choose|i: int| 0 <= i < s.len() && (#[trigger] s[i]).pid == pid
}

/// The task with identity `pid`.
pub open spec fn seq_task_of(s: Seq<TaskControlBlock>, pid: usize) -> TaskControlBlock {
    s[seq_idx_of(s, pid)]
}

/// The task at index `i` is found at its own identity.
pub proof fn lemma_task_at(s: Seq<TaskControlBlock>, i: int)
    requires
        seq_pids_unique(s),
        0 <= i < s.len(),
    ensures
        seq_has_pid(s, s[i].pid),
        seq_idx_of(s, s[i].pid) == i,
        seq_task_of(s, s[i].pid) == s[i],
{
    let pid = s[i].pid;
    assert(seq_has_pid(s, pid));
    let c = seq_idx_of(s, pid);
    if c < i {
        assert(s[c].pid != s[i].pid);
    } else if c > i {
        assert(s[i].pid != s[c].pid);
    }
}

/// Replacing the task at `i` by one with the same identity leaves every
/// other lookup unchanged.
pub proof fn lemma_lookup_update(s: Seq<TaskControlBlock>, i: int, t: TaskControlBlock)
    requires
        seq_pids_unique(s),
        0 <= i < s.len(),
        t.pid == s[i].pid,
    ensures
        seq_pids_unique(s.update(i, t)),
        forall|p: usize| #[trigger] seq_has_pid(s.update(i, t), p) == seq_has_pid(s, p),
        seq_task_of(s.update(i, t), t.pid) == t,
        seq_idx_of(s.update(i, t), t.pid) == i,
        forall|p: usize|
            p != t.pid && seq_has_pid(s, p) ==> #[trigger] seq_task_of(s.update(i, t), p)
                == seq_task_of(s, p) && seq_idx_of(s.update(i, t), p) == seq_idx_of(s, p),
{
    let s2 = s.update(i, t);
    assert forall|p: usize| #[trigger] seq_has_pid(s2, p) == seq_has_pid(s, p) by {
        if seq_has_pid(s2, p) {
            let c = choose|m: int| 0 <= m < s2.len() && (#[trigger] s2[m]).pid == p;
            assert(s[c].pid == p || c == i);
            assert(seq_has_pid(s, p));
        }
        if seq_has_pid(s, p) {
            let c = choose|m: int| 0 <= m < s.len() && (#[trigger] s[m]).pid == p;
            assert(s2[c].pid == p || c == i);
            assert(seq_has_pid(s2, p));
        }
    }
    lemma_task_at(s, i);
    assert(seq_pids_unique(s2)) by {
        assert forall|m: int, n: int| 0 <= m < n < s2.len() implies (#[trigger] s2[m]).pid != (
        #[trigger] s2[n]).pid by {
            assert(s[m].pid == s2[m].pid || m == i);
            assert(s[n].pid == s2[n].pid || n == i);
        }
    }
    lemma_task_at(s2, i);
    assert forall|p: usize| p != t.pid && seq_has_pid(s, p) implies (#[trigger] seq_task_of(
        s2,
        p,
    )) == seq_task_of(s, p) && seq_idx_of(s2, p) == seq_idx_of(s, p) by {
        let c = seq_idx_of(s, p);
        assert(0 <= c < s.len() && s[c].pid == p);
        assert(c != i);
        assert(s2[c].pid == p);
        lemma_task_at(s2, c);
        lemma_task_at(s, c);
    }
}

/// Appending a task with a fresh identity leaves every other lookup
/// unchanged.
pub proof fn lemma_lookup_push(s: Seq<TaskControlBlock>, t: TaskControlBlock)
    requires
        seq_pids_unique(s),
        !seq_has_pid(s, t.pid),
    ensures
        seq_pids_unique(s.push(t)),
        seq_has_pid(s.push(t), t.pid),
        seq_task_of(s.push(t), t.pid) == t,
        forall|p: usize|
            p != t.pid ==> #[trigger] seq_has_pid(s.push(t), p) == seq_has_pid(s, p),
        forall|p: usize|
            p != t.pid && seq_has_pid(s, p) ==> #[trigger] seq_task_of(s.push(t), p)
                == seq_task_of(s, p),
{
    let s2 = s.push(t);
    assert(seq_pids_unique(s2)) by {
        assert forall|m: int, n: int| 0 <= m < n < s2.len() implies (#[trigger] s2[m]).pid != (
        #[trigger] s2[n]).pid by {
            if n == s.len() as int {
                assert(s2[m] == s[m]);
                assert(seq_has_pid(s, s[m].pid)) by {
                    lemma_task_at(s, m);
                }
            }
        }
    }
    assert(s2[s.len() as int] == t);
    lemma_task_at(s2, s.len() as int);
    assert forall|p: usize| p != t.pid implies (#[trigger] seq_has_pid(s2, p)) == seq_has_pid(
        s,
        p,
    ) by {
        if seq_has_pid(s2, p) {
            let c = choose|m: int| 0 <= m < s2.len() && (#[trigger] s2[m]).pid == p;
            assert(c < s.len());
            assert(s[c].pid == p);
        }
        if seq_has_pid(s, p) {
            let c = choose|m: int| 0 <= m < s.len() && (#[trigger] s[m]).pid == p;
            assert(s2[c].pid == p);
        }
    }
    assert forall|p: usize| p != t.pid && seq_has_pid(s, p) implies (#[trigger] seq_task_of(
        s2,
        p,
    )) == seq_task_of(s, p) by {
        let c = seq_idx_of(s, p);
        assert(0 <= c < s.len() && s[c].pid == p);
        assert(s2[c].pid == p);
        lemma_task_at(s2, c);
        lemma_task_at(s, c);
    }
}

/// Removing the task at `i` leaves every other lookup unchanged.
pub proof fn lemma_lookup_remove(s: Seq<TaskControlBlock>, i: int)
    requires
        seq_pids_unique(s),
        0 <= i < s.len(),
    ensures
        seq_pids_unique(s.remove(i)),
        !seq_has_pid(s.remove(i), s[i].pid),
        forall|p: usize|
            p != s[i].pid ==> #[trigger] seq_has_pid(s.remove(i), p) == seq_has_pid(s, p),
        forall|p: usize|
            p != s[i].pid && seq_has_pid(s, p) ==> #[trigger] seq_task_of(s.remove(i), p)
                == seq_task_of(s, p),
{
    let s2 = s.remove(i);
    assert forall|n: int| 0 <= n < s2.len() implies #[trigger] s2[n] == (if n < i {
        s[n]
    } else {
        s[n + 1]
    }) by {}
    assert(seq_pids_unique(s2)) by {
        assert forall|m: int, n: int| 0 <= m < n < s2.len() implies (#[trigger] s2[m]).pid != (
        #[trigger] s2[n]).pid by {}
    }
    assert forall|p: usize| p != s[i].pid implies (#[trigger] seq_has_pid(s2, p)) == seq_has_pid(
        s,
        p,
    ) by {
        if seq_has_pid(s2, p) {
            let c = choose|m: int| 0 <= m < s2.len() && (#[trigger] s2[m]).pid == p;
            if c < i {
                assert(s[c].pid == p);
            } else {
                assert(s[c + 1].pid == p);
            }
        }
        if seq_has_pid(s, p) {
            let c = choose|m: int| 0 <= m < s.len() && (#[trigger] s[m]).pid == p;
            assert(c != i);
            if c < i {
                assert(s2[c].pid == p);
            } else {
                assert(s2[c - 1].pid == p);
            }
        }
    }
    assert(!seq_has_pid(s2, s[i].pid)) by {
        if seq_has_pid(s2, s[i].pid) {
            let c = choose|m: int| 0 <= m < s2.len() && (#[trigger] s2[m]).pid == s[i].pid;
            if c < i {
                assert(s[c].pid == s[i].pid);
                lemma_task_at(s, c);
                lemma_task_at(s, i);
            } else {
                assert(s[c + 1].pid == s[i].pid);
                lemma_task_at(s, c + 1);
                lemma_task_at(s, i);
            }
        }
    }
    assert forall|p: usize| p != s[i].pid && seq_has_pid(s, p) implies (#[trigger] seq_task_of(
        s2,
        p,
    )) == seq_task_of(s, p) by {
        let c = seq_idx_of(s, p);
        assert(0 <= c < s.len() && s[c].pid == p);
        assert(c != i);
        if c < i {
            assert(s2[c].pid == p);
            lemma_task_at(s2, c);
        } else {
            assert(s2[c - 1].pid == p);
            lemma_task_at(s2, c - 1);
        }
        lemma_task_at(s, c);
    }
}

/// The pipe ends named by a task's descriptor table all exist in the
/// pipe registry.
pub open spec fn caps_ok(t: TaskControlBlock, npipes: int) -> bool {
    forall|f: int|
        0 <= f < t.fd_table@.len() ==> match #[trigger] t.fd_table@[f] {
            Some(FileCap::PipeRead(p)) => p < npipes,
            Some(FileCap::PipeWrite(p)) => p < npipes,
            _ => true,
        }
}

/// The kernel's process-wide state.
pub struct Kernel {
    /// Every live task, zombies included, in creation order.
    pub tasks: Vec<TaskControlBlock>,
    /// Identity of the one `Running` task.
    pub current: usize,
    /// The scheduler's ready set.
    pub manager: TaskManager,
    /// Registry of every pipe any descriptor refers to.
    pub pipes: Vec<Pipe>,
    /// Next identity to assign; identities grow monotonically.
    pub next_pid: usize,
}

impl Kernel {
    /// Some live task has identity `pid`.
    pub open spec fn has_task(self, pid: usize) -> bool {
        seq_has_pid(self.tasks@, pid)
    }

    /// The live task with identity `pid`.
    pub open spec fn task_of(self, pid: usize) -> TaskControlBlock {
        seq_task_of(self.tasks@, pid)
    }

    /// A ready-set record is backed by a `Ready` task with that pass.
    pub open spec fn queue_entry_ok(self, e: SchedInfo) -> bool {
        &&& self.has_task(e.id)
        &&& self.task_of(e.id).task_status is Ready
        &&& self.task_of(e.id).pass == e.pass
    }

    /// The kernel invariant: identities are unique and below `next_pid`,
    /// every task and pipe is well formed, descriptor tables point into
    /// the pipe registry, and the ready set mirrors exactly the `Ready`
    /// tasks.
    pub open spec fn wf(self) -> bool {
        &&& seq_pids_unique(self.tasks@)
        &&& forall|i: int|
            0 <= i < self.tasks@.len() ==> (#[trigger] self.tasks@[i]).wf() && caps_ok(
                self.tasks@[i],
                self.pipes@.len() as int,
            ) && self.tasks@[i].pid < self.next_pid && self.tasks@[i].pid > 0
        &&& forall|p: int| 0 <= p < self.pipes@.len() ==> (#[trigger] self.pipes@[p]).wf()
        &&& forall|qi: int|
            0 <= qi < self.manager.queue().len() ==> self.queue_entry_ok(
                #[trigger] self.manager.queue()[qi],
            )
        &&& forall|qi: int, qj: int|
            0 <= qi < qj < self.manager.queue().len() ==> (#[trigger] self.manager.queue()[qi]).id
                != (#[trigger] self.manager.queue()[qj]).id
        &&& forall|i: int|
            0 <= i < self.tasks@.len() && (#[trigger] self.tasks@[i]).task_status is Ready
                ==> exists|qi: int|
                0 <= qi < self.manager.queue().len() && (#[trigger] self.manager.queue()[qi]).id
                    == self.tasks@[i].pid
        &&& self.next_pid <= (isize::MAX as usize)
        &&& self.next_pid > 0
    }

    /// One task runs: `current` names it, it is `Running`, and nothing
    /// else is.
    pub open spec fn running_ok(self) -> bool {
        &&& self.has_task(self.current)
        &&& self.task_of(self.current).task_status is Running
        &&& forall|i: int|
            0 <= i < self.tasks@.len() && (#[trigger] self.tasks@[i]).task_status is Running
                ==> self.tasks@[i].pid == self.current
    }

    /// No task runs yet: the boot state.
    pub open spec fn no_running(self) -> bool {
        forall|i: int|
            0 <= i < self.tasks@.len() ==> !((#[trigger] self.tasks@[i]).task_status is Running)
    }

    /// An empty kernel, before any task is created.
    pub fn new() -> (r: Self)
        ensures
            r.wf(),
            r.no_running(),
            r.tasks@ == Seq::<TaskControlBlock>::empty(),
            r.manager.queue() == Seq::<SchedInfo>::empty(),
            r.pipes@ == Seq::<Pipe>::empty(),
            r.next_pid == ROOT_PID,
    {
        Self {
            tasks: Vec::new(),
            current: 0,
            manager: TaskManager::new(),
            pipes: Vec::new(),
            next_pid: ROOT_PID,
        }
    }

    /// Index of the task with identity `pid` in the process table.
    pub fn task_index(&self, pid: usize) -> (r: Option<usize>)
        requires
            seq_pids_unique(self.tasks@),
        ensures
            match r {
                Some(i) => i < self.tasks@.len() && self.tasks@[i as int].pid == pid
                    && self.has_task(pid) && seq_idx_of(self.tasks@, pid) == i && self.task_of(pid)
                    == self.tasks@[i as int],
                None => !self.has_task(pid),
            },
    {
        let mut i: usize = 0;
        while i < self.tasks.len()
            invariant
                seq_pids_unique(self.tasks@),
                i <= self.tasks@.len(),
                forall|j: int| 0 <= j < i ==> (#[trigger] self.tasks@[j]).pid != pid,
            decreases self.tasks@.len() - i,
        {
            if self.tasks[i].pid == pid {
                proof {
                    lemma_task_at(self.tasks@, i as int);
                }
                return Some(i);
            }
            i = i + 1;
        }
        None
    }
}

/// Identity of the task now holding the processor.
pub fn get_current_task(kernel: &Kernel) -> (r: usize)
    ensures
        r == kernel.current,
{
    kernel.current
}

/// The stride charge of one voluntary suspension: the pass grows by
/// `BIG_STRIDE / priority` and the execution time by one quantum.
pub open spec fn charged(c: TaskControlBlock) -> TaskControlBlock {
    TaskControlBlock {
        pass: (c.pass + BIG_STRIDE / c.priority) as usize,
        exec_time_ms: (c.exec_time_ms + TIME_QUANTUM_MS) as usize,
        ..c
    }
}

/// A scheduling decision: from task table `ts1` and ready queue `q1`,
/// the earliest minimum-pass record was removed, its task marked
/// `Running` and made current; nothing else changed.
pub open spec fn dispatched(
    ts1: Seq<TaskControlBlock>,
    q1: Seq<SchedInfo>,
    post: Kernel,
    pipes1: Seq<Pipe>,
    next_pid1: usize,
) -> bool {
    exists|i: int|
        #[trigger] is_first_min(q1, i) && post.current == q1[i].id && post.manager.queue()
            == q1.remove(i) && seq_has_pid(ts1, q1[i].id) && post.tasks@ == ts1.update(
            seq_idx_of(ts1, q1[i].id),
            (TaskControlBlock { task_status: TaskStatus::Running, ..seq_task_of(ts1, q1[i].id) }),
        ) && post.pipes@ == pipes1 && post.next_pid == next_pid1
}

/// What marking the current task exited did: with `c1` the record the
/// task had on entry, the task is a `Zombie` holding `code`, its children
/// are reparented to the root task, and every other task and the rest of
/// the kernel are untouched.
pub open spec fn current_exited(pre: Kernel, mid: Kernel, code: i32, c1: TaskControlBlock) -> bool {
    &&& seq_pids_unique(mid.tasks@)
    &&& forall|p: usize| #[trigger] mid.has_task(p) == pre.has_task(p)
    &&& mid.tasks@.len() == pre.tasks@.len()
    &&& ({
        let cz = mid.task_of(c1.pid);
        &&& cz.task_status is Zombie
        &&& cz.exit_code == code
        &&& cz.pid == c1.pid
        &&& cz.pass == c1.pass
        &&& cz.exec_time_ms == c1.exec_time_ms
        &&& cz.priority == c1.priority
        &&& cz.task_cx_ptr == c1.task_cx_ptr
        &&& cz.parent == c1.parent
        &&& cz.fd_table == c1.fd_table
        &&& cz.address_space == c1.address_space
        &&& cz.mailbox == c1.mailbox
        &&& cz.children@ == (if c1.pid == ROOT_PID {
            c1.children@
        } else {
            Seq::<usize>::empty()
        })
    })
    &&& forall|ch: usize|
        c1.children@.contains(ch) && ch != c1.pid && pre.has_task(ch) ==> (
        #[trigger] mid.task_of(ch)).parent == Some(ROOT_PID)
    &&& (c1.pid != ROOT_PID && pre.has_task(ROOT_PID) ==> mid.task_of(ROOT_PID).children@
        == pre.task_of(ROOT_PID).children@ + c1.children@)
    &&& forall|p: usize|
        pre.has_task(p) && p != c1.pid ==> ({
            let a = #[trigger] mid.task_of(p);
            let b = pre.task_of(p);
            &&& a.pid == b.pid
            &&& a.task_status == b.task_status
            &&& a.pass == b.pass
            &&& a.exec_time_ms == b.exec_time_ms
            &&& a.priority == b.priority
            &&& a.task_cx_ptr == b.task_cx_ptr
            &&& a.fd_table == b.fd_table
            &&& a.address_space == b.address_space
            &&& a.mailbox == b.mailbox
            &&& a.exit_code == b.exit_code
        })
    &&& mid.manager.queue() == pre.manager.queue()
    &&& mid.pipes@ == pre.pipes@
    &&& mid.next_pid == pre.next_pid
}

impl Kernel {
    /// The running task's next quantum charge would reach the execution
    /// budget: the coming yield forces an exit.
    pub open spec fn yield_would_exit(self) -> bool {
        self.task_of(self.current).exec_time_ms + TIME_QUANTUM_MS >= TIME_BUDGET_MS
    }

    /// Index of the task with identity `pid`, which must exist.
    pub(crate) fn task_index_must(&self, pid: usize) -> (i: usize)
        requires
            seq_pids_unique(self.tasks@),
            self.has_task(pid),
        ensures
            i < self.tasks@.len(),
            self.tasks@[i as int].pid == pid,
            seq_idx_of(self.tasks@, pid) == i,
            self.task_of(pid) == self.tasks@[i as int],
    {
        match self.task_index(pid) {
            Some(i) => i,
            None => {
                proof {
                    assert(false);
                }
                0
            },
        }
    }

    /// Takes the earliest minimum-pass record off the ready set and runs
    /// its task.
    fn run_next_task(&mut self)
        requires
            old(self).wf(),
            old(self).no_running(),
            old(self).manager.queue().len() > 0,
        ensures
            final(self).wf(),
            final(self).running_ok(),
            dispatched(
                old(self).tasks@,
                old(self).manager.queue(),
                *final(self),
                old(self).pipes@,
                old(self).next_pid,
            ),
    {
        let next = match self.manager.fetch() {
            Some(e) => e,
            None => {
                proof {
                    assert(false);
                }
                SchedInfo { id: 0, pass: 0 }
            },
        };
        proof {
            let q0 = old(self).manager.queue();
            let fi = choose|i: int|
                (#[trigger] is_first_min(q0, i)) && Some(q0[i]) == Some(next)
                    && self.manager.queue() == q0.remove(i);
            assert(is_first_min(q0, fi) && q0[fi] == next && self.manager.queue() == q0.remove(
                fi,
            ));
            assert(old(self).queue_entry_ok(next));
        }
        let ti = self.task_index_must(next.id);
        self.tasks[ti].task_status = TaskStatus::Running;
        self.current = next.id;
        proof {
            let pre = *old(self);
            let q0 = pre.manager.queue();
            let ts0 = pre.tasks@;
            let fi = choose|i: int|
                (#[trigger] is_first_min(q0, i)) && q0[i] == next && self.manager.queue()
                    == q0.remove(i);
            let t1 = seq_task_of(ts0, next.id);
            let t2 = TaskControlBlock { task_status: TaskStatus::Running, ..t1 };
            assert(self.tasks@ == ts0.update(ti as int, t2));
            lemma_lookup_update(ts0, ti as int, t2);
            assert(dispatched(ts0, q0, *self, pre.pipes@, pre.next_pid));
            // the kernel invariant survives the dispatch
            assert forall|i: int| 0 <= i < self.tasks@.len() implies (
            #[trigger] self.tasks@[i]).wf() && caps_ok(self.tasks@[i], self.pipes@.len() as int)
                && self.tasks@[i].pid < self.next_pid && self.tasks@[i].pid > 0 by {
                assert(ts0[i].wf() && caps_ok(ts0[i], pre.pipes@.len() as int));
                if i == ti as int {
                    assert(self.tasks@[i] == t2);
                    assert(caps_ok(t2, self.pipes@.len() as int)) by {
                        assert(t2.fd_table == t1.fd_table);
                    }
                }
            }
            assert forall|qi: int| 0 <= qi < self.manager.queue().len() implies self.queue_entry_ok(
                #[trigger] self.manager.queue()[qi],
            ) by {
                let e = self.manager.queue()[qi];
                let oqi = if qi < fi {
                    qi
                } else {
                    qi + 1
                };
                assert(e == q0[oqi]);
                assert(pre.queue_entry_ok(e));
                assert(e.id != next.id) by {
                    if oqi < fi {
                        assert(q0[oqi].id != q0[fi].id);
                    } else {
                        assert(q0[fi].id != q0[oqi].id);
                    }
                }
                assert(self.task_of(e.id) == pre.task_of(e.id));
            }
            assert forall|i: int|
                0 <= i < self.tasks@.len() && (#[trigger] self.tasks@[i]).task_status
                    is Ready implies exists|qi: int|
                0 <= qi < self.manager.queue().len() && (#[trigger] self.manager.queue()[qi]).id
                    == self.tasks@[i].pid by {
                assert(i != ti as int);
                assert(ts0[i].task_status is Ready);
                let oqi = choose|qi: int|
                    0 <= qi < q0.len() && (#[trigger] q0[qi]).id == ts0[i].pid;
                assert(oqi != fi) by {
                    lemma_task_at(ts0, i);
                    if q0[fi].id == ts0[i].pid {
                        assert(pre.queue_entry_ok(q0[fi]));
                        assert(pre.task_of(ts0[i].pid).task_status is Ready);
                        assert(seq_idx_of(ts0, ts0[i].pid) == i);
                        assert(ti as int == i);
                    }
                }
                let nqi = if oqi < fi {
                    oqi
                } else {
                    oqi - 1
                };
                assert(self.manager.queue()[nqi].id == ts0[i].pid);
            }
            assert(self.running_ok()) by {
                lemma_task_at(self.tasks@, ti as int);
                assert forall|i: int|
                    0 <= i < self.tasks@.len() && (#[trigger] self.tasks@[i]).task_status
                        is Running implies self.tasks@[i].pid == self.current by {
                    if i != ti as int {
                        assert(ts0[i].task_status is Running);
                    }
                }
            }
        }
    }

    /// Marks the current task a `Zombie` holding `code` and reparents its
    /// children to the root task. With `charge`, the final stride and
    /// time charge of the terminating yield is applied first.
    #[verifier::rlimit(100)]
    #[verifier::spinoff_prover]
    fn mark_current_exited(&mut self, code: i32, charge: bool)
        requires
            old(self).wf(),
            old(self).running_ok(),
        ensures
            final(self).wf(),
            final(self).no_running(),
            final(self).manager.queue() == old(self).manager.queue(),
            current_exited(
                *old(self),
                *final(self),
                code,
                if charge {
                    charged(old(self).task_of(old(self).current))
                } else {
                    old(self).task_of(old(self).current)
                },
            ),
    {
        let ci = self.task_index_must(self.current);
        let cpid = self.current;
        proof {
            assert(old(self).tasks@[ci as int].wf());
        }
        // copy the children list out before any mutation
        let mut kids: Vec<usize> = Vec::new();
        let nkids = self.tasks[ci].children.len();
        let mut i: usize = 0;
        while i < nkids
            invariant
                *self == *old(self),
                ci < self.tasks@.len(),
                nkids == self.tasks@[ci as int].children@.len(),
                i <= nkids,
                kids@ == self.tasks@[ci as int].children@.take(i as int),
            decreases nkids - i,
        {
            let ch = self.tasks[ci].children[i];
            kids.push(ch);
            proof {
                assert(kids@ =~= self.tasks@[ci as int].children@.take(i + 1 as int));
            }
            i = i + 1;
        }
        proof {
            assert(kids@ =~= old(self).task_of(cpid).children@);
        }
        // the zombie transition itself
        self.tasks[ci].task_status = TaskStatus::Zombie;
        self.tasks[ci].exit_code = code;
        if charge {
            let prio = self.tasks[ci].priority;
            let pass0 = self.tasks[ci].pass;
            let exec0 = self.tasks[ci].exec_time_ms;
            proof {
                assert(prio >= 2);
                assert(BIG_STRIDE / prio <= BIG_STRIDE / 2) by (nonlinear_arith)
                    requires
                        prio >= 2,
                ;
                assert(pass0 * TIME_QUANTUM_MS <= (BIG_STRIDE / 2) * exec0);
                assert(exec0 < TIME_BUDGET_MS);
            }
            self.tasks[ci].pass = pass0 + BIG_STRIDE / prio;
            self.tasks[ci].exec_time_ms = exec0 + TIME_QUANTUM_MS;
        }
        if cpid != ROOT_PID {
            self.tasks[ci].children = Vec::new();
        }
        let ghost c1 = if charge {
            charged(old(self).task_of(cpid))
        } else {
            old(self).task_of(cpid)
        };
        proof {
            let cz = TaskControlBlock {
                task_status: TaskStatus::Zombie,
                exit_code: code,
                children: self.tasks@[ci as int].children,
                ..c1
            };
            assert(self.tasks@ =~= old(self).tasks@.update(ci as int, cz));
            lemma_lookup_update(old(self).tasks@, ci as int, cz);
        }
        let ghost s1 = *self;
        self.reparent_children(&kids, cpid);
        let ghost s2 = *self;
        if cpid != ROOT_PID {
            self.append_children_to_root(&kids);
        }
        proof {
            let pre = *old(self);
            let c1v = c1;
            // lookups frame through the three stages
            assert forall|p: usize| #[trigger] self.has_task(p) == pre.has_task(p) by {
                assert(s2.has_task(p) == s1.has_task(p));
            }
            assert(self.task_of(cpid).task_status is Zombie);
            assert(self.task_of(cpid).exit_code == code);
            if cpid != ROOT_PID && pre.has_task(ROOT_PID) {
                assert(self.task_of(ROOT_PID).children@ == pre.task_of(ROOT_PID).children@
                    + c1v.children@);
            }
            assert(current_exited(pre, *self, code, c1v));
            assert(c1v.fd_table == pre.task_of(cpid).fd_table && c1v.priority == pre.task_of(
                cpid,
            ).priority && c1v.mailbox == pre.task_of(cpid).mailbox && c1v.address_space
                == pre.task_of(cpid).address_space);
            lemma_exit_wf(pre, *self, code, c1v);
        }
    }

    /// Sets the parent of every listed child (other than `cpid` itself)
    /// to the root task, leaving each child otherwise untouched.
    fn reparent_children(&mut self, kids: &Vec<usize>, cpid: usize)
        requires
            seq_pids_unique(old(self).tasks@),
        ensures
            seq_pids_unique(final(self).tasks@),
            final(self).tasks@.len() == old(self).tasks@.len(),
            forall|p: usize| #[trigger] final(self).has_task(p) == old(self).has_task(p),
            forall|ch: usize|
                kids@.contains(ch) && ch != cpid && old(self).has_task(ch) ==> (
                #[trigger] final(self).task_of(ch)) == (TaskControlBlock {
                    parent: Some(ROOT_PID),
                    ..old(self).task_of(ch)
                }),
            forall|p: usize|
                old(self).has_task(p) && (!kids@.contains(p) || p == cpid) ==> (
                #[trigger] final(self).task_of(p)) == old(self).task_of(p),
            final(self).manager == old(self).manager,
            final(self).current == old(self).current,
            final(self).pipes == old(self).pipes,
            final(self).next_pid == old(self).next_pid,
    {
        let mut j: usize = 0;
        while j < kids.len()
            invariant
                seq_pids_unique(self.tasks@),
                j <= kids@.len(),
                self.tasks@.len() == old(self).tasks@.len(),
                forall|p: usize| #[trigger] self.has_task(p) == old(self).has_task(p),
                forall|ch: usize|
                    kids@.take(j as int).contains(ch) && ch != cpid && old(self).has_task(ch) ==> (
                    #[trigger] self.task_of(ch)) == (TaskControlBlock {
                        parent: Some(ROOT_PID),
                        ..old(self).task_of(ch)
                    }),
                forall|p: usize|
                    old(self).has_task(p) && (!kids@.take(j as int).contains(p) || p == cpid) ==> (
                    #[trigger] self.task_of(p)) == old(self).task_of(p),
                self.manager == old(self).manager,
                self.current == old(self).current,
                self.pipes == old(self).pipes,
                self.next_pid == old(self).next_pid,
            decreases kids@.len() - j,
        {
            let ch = kids[j];
            let ghost before = *self;
            if ch != cpid {
                match self.task_index(ch) {
                    Some(k) => {
                        self.tasks[k].parent = Some(ROOT_PID);
                        proof {
                            let t2 = TaskControlBlock {
                                parent: Some(ROOT_PID),
                                ..before.tasks@[k as int]
                            };
                            assert(self.tasks@ =~= before.tasks@.update(k as int, t2));
                            lemma_lookup_update(before.tasks@, k as int, t2);
                            assert forall|p: usize| #[trigger] self.has_task(p)
                                == before.has_task(p) by {
                                assert(seq_has_pid(before.tasks@.update(k as int, t2), p)
                                    == seq_has_pid(before.tasks@, p));
                            }
                            assert(self.task_of(ch) == t2) by {
                                assert(seq_task_of(before.tasks@.update(k as int, t2), t2.pid)
                                    == t2);
                            }
                            assert forall|p: usize|
                                p != ch && before.has_task(p) implies (#[trigger] self.task_of(p))
                                == before.task_of(p) by {
                                assert(seq_task_of(before.tasks@.update(k as int, t2), p)
                                    == seq_task_of(before.tasks@, p));
                            }
                            assert(before.task_of(ch) == before.tasks@[k as int]);
                        }
                    },
                    None => {},
                }
            }
            proof {
                assert(kids@.take(j + 1 as int) =~= kids@.take(j as int).push(kids@[j as int]));
                assert forall|c2: usize|
                    kids@.take(j + 1 as int).contains(c2) && c2 != cpid && old(self).has_task(c2)
                        implies (#[trigger] self.task_of(c2)) == (TaskControlBlock {
                        parent: Some(ROOT_PID),
                        ..old(self).task_of(c2)
                    }) by {
                    if c2 == ch {
                        assert(before.has_task(ch));
                        if kids@.take(j as int).contains(ch) {
                            assert(before.task_of(ch) == (TaskControlBlock {
                                parent: Some(ROOT_PID),
                                ..old(self).task_of(ch)
                            }));
                        } else {
                            assert(before.task_of(ch) == old(self).task_of(ch));
                        }
                    } else {
                        assert(kids@.take(j as int).contains(c2));
                        assert(before.task_of(c2) == (TaskControlBlock {
                            parent: Some(ROOT_PID),
                            ..old(self).task_of(c2)
                        }));
                        assert(before.has_task(c2));
                        assert(self.task_of(c2) == before.task_of(c2));
                    }
                }
                assert forall|p: usize|
                    old(self).has_task(p) && (!kids@.take(j + 1 as int).contains(p) || p == cpid)
                        implies (#[trigger] self.task_of(p)) == old(self).task_of(p) by {
                    if p == ch && p != cpid {
                        assert(kids@.take(j + 1 as int)[j as int] == ch);
                        assert(kids@.take(j + 1 as int).contains(ch));
                    } else {
                        assert(!kids@.take(j as int).contains(p) || p == cpid);
                        assert(before.task_of(p) == old(self).task_of(p));
                        assert(before.has_task(p));
                        assert(self.task_of(p) == before.task_of(p));
                    }
                }
            }
            j = j + 1;
        }
        proof {
            assert(kids@.take(kids@.len() as int) =~= kids@);
        }
    }

    /// Appends the listed identities to the root task's children.
    fn append_children_to_root(&mut self, kids: &Vec<usize>)
        requires
            seq_pids_unique(old(self).tasks@),
        ensures
            seq_pids_unique(final(self).tasks@),
            final(self).tasks@.len() == old(self).tasks@.len(),
            forall|p: usize| #[trigger] final(self).has_task(p) == old(self).has_task(p),
            old(self).has_task(ROOT_PID) ==> ({
                let a = final(self).task_of(ROOT_PID);
                let b = old(self).task_of(ROOT_PID);
                &&& a.children@ == b.children@ + kids@
                &&& a == (TaskControlBlock { children: a.children, ..b })
            }),
            forall|p: usize|
                old(self).has_task(p) && p != ROOT_PID ==> (#[trigger] final(self).task_of(p))
                    == old(self).task_of(p),
            final(self).manager == old(self).manager,
            final(self).current == old(self).current,
            final(self).pipes == old(self).pipes,
            final(self).next_pid == old(self).next_pid,
    {
        match self.task_index(ROOT_PID) {
            Some(ri) => {
                let mut m: usize = 0;
                while m < kids.len()
                    invariant
                        seq_pids_unique(self.tasks@),
                        m <= kids@.len(),
                        ri < self.tasks@.len(),
                        self.tasks@.len() == old(self).tasks@.len(),
                        self.tasks@[ri as int].pid == ROOT_PID,
                        seq_idx_of(self.tasks@, ROOT_PID) == ri,
                        forall|p: usize| #[trigger] self.has_task(p) == old(self).has_task(p),
                        self.task_of(ROOT_PID).children@ == old(self).task_of(ROOT_PID).children@
                            + kids@.take(m as int),
                        self.task_of(ROOT_PID) == (TaskControlBlock {
                            children: self.task_of(ROOT_PID).children,
                            ..old(self).task_of(ROOT_PID)
                        }),
                        forall|p: usize|
                            old(self).has_task(p) && p != ROOT_PID ==> (
                            #[trigger] self.task_of(p)) == old(self).task_of(p),
                        self.manager == old(self).manager,
                        self.current == old(self).current,
                        self.pipes == old(self).pipes,
                        self.next_pid == old(self).next_pid,
                    decreases kids@.len() - m,
                {
                    let ghost before = *self;
                    self.tasks[ri].children.push(kids[m]);
                    proof {
                        let t2 = TaskControlBlock {
                            children: self.tasks@[ri as int].children,
                            ..before.tasks@[ri as int]
                        };
                        assert(self.tasks@ =~= before.tasks@.update(ri as int, t2));
                        lemma_lookup_update(before.tasks@, ri as int, t2);
                        assert forall|p: usize| #[trigger] self.has_task(p) == before.has_task(
                            p,
                        ) by {
                            assert(seq_has_pid(before.tasks@.update(ri as int, t2), p)
                                == seq_has_pid(before.tasks@, p));
                        }
                        assert(self.task_of(ROOT_PID) == t2) by {
                            assert(seq_task_of(before.tasks@.update(ri as int, t2), t2.pid) == t2);
                        }
                        assert forall|p: usize|
                            p != ROOT_PID && before.has_task(p) implies (
                        #[trigger] self.task_of(p)) == before.task_of(p) by {
                            assert(seq_task_of(before.tasks@.update(ri as int, t2), p)
                                == seq_task_of(before.tasks@, p));
                        }
                        assert(before.task_of(ROOT_PID) == before.tasks@[ri as int]);
                        assert(self.task_of(ROOT_PID).children@ =~= old(self).task_of(
                            ROOT_PID,
                        ).children@ + kids@.take(m + 1 as int));
                        assert(seq_idx_of(self.tasks@, ROOT_PID) == ri);
                    }
                    m = m + 1;
                }
                proof {
                    assert(kids@.take(kids@.len() as int) =~= kids@);
                }
            },
            None => {},
        }
    }
}

/// Runs the first task at boot: the earliest minimum-pass record of the
/// ready set is dispatched.
pub fn run_first_task(kernel: &mut Kernel)
    requires
        old(kernel).wf(),
        old(kernel).no_running(),
        old(kernel).manager.queue().len() > 0,
    ensures
        final(kernel).wf(),
        final(kernel).running_ok(),
        dispatched(
            old(kernel).tasks@,
            old(kernel).manager.queue(),
            *final(kernel),
            old(kernel).pipes@,
            old(kernel).next_pid,
        ),
{
    kernel.run_next_task();
}

/// A voluntary suspension of the running task.
///
/// The task is charged one time quantum and one stride
/// (`BIG_STRIDE / priority`). If the charge brings its cumulative
/// execution time to the budget, the task is forcibly exited — it goes
/// straight to `Zombie`, bypassing `Ready`. Otherwise it re-enters the
/// ready set behind every earlier arrival. Either way the scheduler then
/// dispatches the earliest minimum-pass ready task.
#[verifier::rlimit(100)]
#[verifier::spinoff_prover]
pub fn suspend_current_and_run_next(kernel: &mut Kernel)
    requires
        old(kernel).wf(),
        old(kernel).running_ok(),
        old(kernel).yield_would_exit() ==> old(kernel).manager.queue().len() > 0,
    ensures
        final(kernel).wf(),
        final(kernel).running_ok(),
        !old(kernel).yield_would_exit() ==> dispatched(
            old(kernel).tasks@.update(
                seq_idx_of(old(kernel).tasks@, old(kernel).current),
                (TaskControlBlock {
                    task_status: TaskStatus::Ready,
                    ..charged(old(kernel).task_of(old(kernel).current))
                }),
            ),
            old(kernel).manager.queue().push(
                SchedInfo {
                    id: old(kernel).current,
                    pass: charged(old(kernel).task_of(old(kernel).current)).pass,
                },
            ),
            *final(kernel),
            old(kernel).pipes@,
            old(kernel).next_pid,
        ),
        !old(kernel).yield_would_exit() ==> final(kernel).has_task(old(kernel).current)
            && final(kernel).task_of(old(kernel).current).pass == old(kernel).task_of(
            old(kernel).current,
        ).pass + BIG_STRIDE / old(kernel).task_of(old(kernel).current).priority
            && final(kernel).task_of(old(kernel).current).exec_time_ms == old(kernel).task_of(
            old(kernel).current,
        ).exec_time_ms + TIME_QUANTUM_MS,
        old(kernel).yield_would_exit() ==> (exists|mid: Kernel|
            (#[trigger] current_exited(
                *old(kernel),
                mid,
                0,
                charged(old(kernel).task_of(old(kernel).current)),
            )) && dispatched(
                mid.tasks@,
                mid.manager.queue(),
                *final(kernel),
                mid.pipes@,
                mid.next_pid,
            )),
        old(kernel).yield_would_exit() ==> final(kernel).has_task(old(kernel).current)
            && final(kernel).task_of(old(kernel).current).task_status is Zombie,
{
    let cpid = kernel.current;
    let ci = kernel.task_index_must(cpid);
    proof {
        assert(kernel.tasks@[ci as int].wf());
    }
    let exec0 = kernel.tasks[ci].exec_time_ms;
    if exec0 + TIME_QUANTUM_MS >= TIME_BUDGET_MS {
        kernel.mark_current_exited(0, true);
        let ghost mid = *kernel;
        kernel.run_next_task();
        proof {
            lemma_zombie_survives_dispatch(mid, *kernel, cpid);
            assert(current_exited(
                *old(kernel),
                mid,
                0,
                charged(old(kernel).task_of(old(kernel).current)),
            ));
        }
    } else {
        let prio = kernel.tasks[ci].priority;
        let pass0 = kernel.tasks[ci].pass;
        proof {
            assert(prio >= 2);
            assert(BIG_STRIDE / prio <= BIG_STRIDE / 2) by (nonlinear_arith)
                requires
                    prio >= 2,
            ;
            assert(pass0 * TIME_QUANTUM_MS <= (BIG_STRIDE / 2) * exec0);
            assert(exec0 < TIME_BUDGET_MS);
        }
        let stride = BIG_STRIDE / prio;
        kernel.tasks[ci].pass = pass0 + stride;
        kernel.tasks[ci].exec_time_ms = exec0 + TIME_QUANTUM_MS;
        kernel.tasks[ci].task_status = TaskStatus::Ready;
        kernel.manager.add(SchedInfo { id: cpid, pass: pass0 + stride });
        proof {
            let pre = *old(kernel);
            let t2 = TaskControlBlock {
                task_status: TaskStatus::Ready,
                ..charged(pre.task_of(cpid))
            };
            assert(kernel.tasks@ =~= pre.tasks@.update(ci as int, t2));
            lemma_lookup_update(pre.tasks@, ci as int, t2);
            assert((pass0 + stride) * TIME_QUANTUM_MS <= (BIG_STRIDE / 2) * (exec0
                + TIME_QUANTUM_MS)) by (nonlinear_arith)
                requires
                    pass0 * TIME_QUANTUM_MS <= (BIG_STRIDE / 2) * exec0,
                    stride <= BIG_STRIDE / 2,
                    pass0 + stride <= usize::MAX,
            ;
            assert(t2.wf()) by {
                assert(t2.mailbox == pre.tasks@[ci as int].mailbox);
                assert(t2.address_space == pre.tasks@[ci as int].address_space);
            }
            assert forall|i: int| 0 <= i < kernel.tasks@.len() implies (
            #[trigger] kernel.tasks@[i]).wf() && caps_ok(
                kernel.tasks@[i],
                kernel.pipes@.len() as int,
            ) && kernel.tasks@[i].pid < kernel.next_pid && kernel.tasks@[i].pid > 0 by {
                assert(pre.tasks@[i].wf() && caps_ok(pre.tasks@[i], pre.pipes@.len() as int));
                if i == ci as int {
                    assert(caps_ok(t2, kernel.pipes@.len() as int)) by {
                        assert forall|f: int| 0 <= f < t2.fd_table@.len() implies match #[trigger] t2.fd_table@[f] {
                            Some(FileCap::PipeRead(q)) => q < kernel.pipes@.len() as int,
                            Some(FileCap::PipeWrite(q)) => q < kernel.pipes@.len() as int,
                            _ => true,
                        } by {
                            assert(t2.fd_table@[f] == pre.tasks@[ci as int].fd_table@[f]);
                        }
                    }
                }
            }
            let q1 = kernel.manager.queue();
            let q0 = pre.manager.queue();
            assert(q1 == q0.push(SchedInfo { id: cpid, pass: t2.pass }));
            assert forall|qi: int| 0 <= qi < q1.len() implies kernel.queue_entry_ok(
                #[trigger] q1[qi],
            ) by {
                if qi < q0.len() {
                    let e = q0[qi];
                    assert(pre.queue_entry_ok(e));
                    assert(e.id != cpid) by {
                        if e.id == cpid {
                            assert(pre.task_of(cpid).task_status is Ready);
                            assert(pre.task_of(cpid).task_status is Running);
                        }
                    }
                    assert(kernel.task_of(e.id) == pre.task_of(e.id));
                } else {
                    assert(q1[qi] == SchedInfo { id: cpid, pass: t2.pass });
                    assert(kernel.task_of(cpid) == t2);
                }
            }
            assert forall|qi: int, qj: int| 0 <= qi < qj < q1.len() implies (
            #[trigger] q1[qi]).id != (#[trigger] q1[qj]).id by {
                if qj == q0.len() as int {
                    assert(q1[qi] == q0[qi]);
                    assert(pre.queue_entry_ok(q0[qi]));
                    if q0[qi].id == cpid {
                        assert(pre.task_of(cpid).task_status is Ready);
                        assert(pre.task_of(cpid).task_status is Running);
                    }
                }
            }
            assert forall|i: int|
                0 <= i < kernel.tasks@.len() && (#[trigger] kernel.tasks@[i]).task_status
                    is Ready implies exists|qi: int|
                0 <= qi < q1.len() && (#[trigger] q1[qi]).id == kernel.tasks@[i].pid by {
                if i == ci as int {
                    assert(q1[q0.len() as int].id == cpid);
                } else {
                    assert(pre.tasks@[i].task_status is Ready);
                    let oqi = choose|qi: int|
                        0 <= qi < q0.len() && (#[trigger] q0[qi]).id == pre.tasks@[i].pid;
                    assert(q1[oqi].id == kernel.tasks@[i].pid);
                }
            }
            assert forall|i: int| 0 <= i < kernel.tasks@.len() implies !((
            #[trigger] kernel.tasks@[i]).task_status is Running) by {
                if i != ci as int {
                    assert(pre.tasks@[i].task_status == kernel.tasks@[i].task_status);
                    if pre.tasks@[i].task_status is Running {
                        assert(pre.tasks@[i].pid == pre.current);
                        lemma_task_at(pre.tasks@, i);
                        assert(i == ci as int);
                    }
                }
            }
            assert(kernel.wf());
            assert(kernel.no_running());
        }
        let ghost mid = *kernel;
        kernel.run_next_task();
        proof {
            let pre = *old(kernel);
            let t2 = TaskControlBlock {
                task_status: TaskStatus::Ready,
                ..charged(pre.task_of(cpid))
            };
            assert(mid.tasks@ == pre.tasks@.update(seq_idx_of(pre.tasks@, cpid), t2));
            // where the yielded task ended up
            let q1 = mid.manager.queue();
            let di = choose|i: int|
                (#[trigger] is_first_min(q1, i)) && kernel.current == q1[i].id
                    && kernel.manager.queue() == q1.remove(i) && seq_has_pid(mid.tasks@, q1[i].id)
                    && kernel.tasks@ == mid.tasks@.update(
                    seq_idx_of(mid.tasks@, q1[i].id),
                    (TaskControlBlock {
                        task_status: TaskStatus::Running,
                        ..seq_task_of(mid.tasks@, q1[i].id)
                    }),
                );
            let t3 = TaskControlBlock {
                task_status: TaskStatus::Running,
                ..seq_task_of(mid.tasks@, q1[di].id)
            };
            lemma_lookup_update(mid.tasks@, seq_idx_of(mid.tasks@, q1[di].id), t3);
            lemma_lookup_update(pre.tasks@, seq_idx_of(pre.tasks@, cpid), t2);
            assert(mid.task_of(cpid) == t2);
            if q1[di].id == cpid {
                assert(kernel.task_of(cpid) == t3);
                assert(t3.pass == t2.pass && t3.exec_time_ms == t2.exec_time_ms);
            } else {
                assert(kernel.task_of(cpid) == mid.task_of(cpid));
            }
        }
    }
}

/// The running task exits with `code`: it becomes a `Zombie`, its
/// children are reparented to the root task, and the scheduler dispatches
/// the earliest minimum-pass ready task. The zombie stays in the process
/// table until its parent reaps it.
pub fn exit_current_and_run_next(kernel: &mut Kernel, exit_code: i32)
    requires
        old(kernel).wf(),
        old(kernel).running_ok(),
        old(kernel).manager.queue().len() > 0,
    ensures
        final(kernel).wf(),
        final(kernel).running_ok(),
        exists|mid: Kernel|
            (#[trigger] current_exited(
                *old(kernel),
                mid,
                exit_code,
                old(kernel).task_of(old(kernel).current),
            )) && dispatched(
                mid.tasks@,
                mid.manager.queue(),
                *final(kernel),
                mid.pipes@,
                mid.next_pid,
            ),
        final(kernel).has_task(old(kernel).current),
        final(kernel).task_of(old(kernel).current).task_status is Zombie,
        final(kernel).task_of(old(kernel).current).exit_code == exit_code,
{
    let cpid = kernel.current;
    kernel.mark_current_exited(exit_code, false);
    let ghost mid = *kernel;
    kernel.run_next_task();
    proof {
        lemma_zombie_survives_dispatch(mid, *kernel, cpid);
        assert(current_exited(
            *old(kernel),
            mid,
            exit_code,
            old(kernel).task_of(old(kernel).current),
        ));
    }
}

/// A `Zombie` is untouched by a dispatch: the scheduler only promotes a
/// `Ready` task.
proof fn lemma_zombie_survives_dispatch(mid: Kernel, post: Kernel, zpid: usize)
    requires
        mid.wf(),
        mid.has_task(zpid),
        mid.task_of(zpid).task_status is Zombie,
        dispatched(mid.tasks@, mid.manager.queue(), post, mid.pipes@, mid.next_pid),
    ensures
        post.has_task(zpid),
        post.task_of(zpid) == mid.task_of(zpid),
{
    let q1 = mid.manager.queue();
    let di = choose|i: int|
        (#[trigger] is_first_min(q1, i)) && post.current == q1[i].id && post.manager.queue()
            == q1.remove(i) && seq_has_pid(mid.tasks@, q1[i].id) && post.tasks@
            == mid.tasks@.update(
            seq_idx_of(mid.tasks@, q1[i].id),
            (TaskControlBlock {
                task_status: TaskStatus::Running,
                ..seq_task_of(mid.tasks@, q1[i].id)
            }),
        );
    assert(mid.queue_entry_ok(q1[di]));
    assert(q1[di].id != zpid) by {
        if q1[di].id == zpid {
            assert(mid.task_of(zpid).task_status is Ready);
        }
    }
    let t3 = TaskControlBlock {
        task_status: TaskStatus::Running,
        ..seq_task_of(mid.tasks@, q1[di].id)
    };
    lemma_lookup_update(mid.tasks@, seq_idx_of(mid.tasks@, q1[di].id), t3);
    assert(seq_idx_of(mid.tasks@, q1[di].id) == seq_idx_of(mid.tasks@, q1[di].id));
    assert(0 <= seq_idx_of(mid.tasks@, q1[di].id) < mid.tasks@.len()) by {
        let c = choose|i: int|
            0 <= i < mid.tasks@.len() && (#[trigger] mid.tasks@[i]).pid == q1[di].id;
        assert(mid.tasks@[c].pid == q1[di].id);
    }
}

/// Creates a fresh task from a loaded program image: a new monotonic
/// identity, default scheduling state, and registration with the
/// scheduler. Resource exhaustion of the identity space is fatal and
/// excluded by precondition.
#[verifier::rlimit(60)]
pub fn create(kernel: &mut Kernel, address_space: AddressSpace, entry_cx: usize) -> (pid: usize)
    requires
        old(kernel).wf(),
        address_space.wf(),
        old(kernel).next_pid < (isize::MAX as usize),
    ensures
        final(kernel).wf(),
        pid == old(kernel).next_pid,
        final(kernel).next_pid == old(kernel).next_pid + 1,
        final(kernel).has_task(pid),
        ({
            let t = final(kernel).task_of(pid);
            &&& t.task_status is Ready
            &&& t.pass == 0
            &&& t.exec_time_ms == 0
            &&& t.priority == DEFAULT_PRIORITY
            &&& t.parent is None
            &&& t.children@ == Seq::<usize>::empty()
            &&& t.address_space == address_space
            &&& t.mailbox.pending() == Seq::<Seq<u8>>::empty()
            &&& t.task_cx_ptr == entry_cx
        }),
        forall|p: usize| p != pid ==> #[trigger] final(kernel).has_task(p) == old(kernel).has_task(p),
        forall|p: usize|
            p != pid && old(kernel).has_task(p) ==> (#[trigger] final(kernel).task_of(p)) == old(
                kernel,
            ).task_of(p),
        final(kernel).manager.queue() == old(kernel).manager.queue().push(
            SchedInfo { id: pid, pass: 0 },
        ),
        final(kernel).pipes == old(kernel).pipes,
        final(kernel).current == old(kernel).current,
        old(kernel).no_running() ==> final(kernel).no_running(),
        old(kernel).running_ok() ==> final(kernel).running_ok(),
{
    let pid = kernel.next_pid;
    kernel.next_pid = kernel.next_pid + 1;
    let t = TaskControlBlock::new(pid, address_space, entry_cx);
    proof {
        assert(!seq_has_pid(old(kernel).tasks@, pid)) by {
            if seq_has_pid(old(kernel).tasks@, pid) {
                let c = choose|i: int|
                    0 <= i < old(kernel).tasks@.len() && (#[trigger] old(kernel).tasks@[i]).pid
                        == pid;
                assert(old(kernel).tasks@[c].pid < pid);
            }
        }
        lemma_lookup_push(old(kernel).tasks@, t);
    }
    kernel.tasks.push(t);
    kernel.manager.add(SchedInfo { id: pid, pass: 0 });
    proof {
        let pre = *old(kernel);
        let ts0 = pre.tasks@;
        assert(kernel.tasks@ == ts0.push(t));
        assert(kernel.task_of(pid) == t);
        assert(t.wf());
        assert forall|i: int| 0 <= i < kernel.tasks@.len() implies (
        #[trigger] kernel.tasks@[i]).wf() && caps_ok(kernel.tasks@[i], kernel.pipes@.len() as int)
            && kernel.tasks@[i].pid < kernel.next_pid && kernel.tasks@[i].pid > 0 by {
            if i < ts0.len() {
                assert(kernel.tasks@[i] == ts0[i]);
                assert(ts0[i].wf() && caps_ok(ts0[i], pre.pipes@.len() as int));
            } else {
                assert(kernel.tasks@[i] == t);
                assert(caps_ok(t, kernel.pipes@.len() as int)) by {
                    assert forall|f: int| 0 <= f < t.fd_table@.len() implies match #[trigger] t.fd_table@[f] {
                        Some(FileCap::PipeRead(q)) => q < kernel.pipes@.len() as int,
                        Some(FileCap::PipeWrite(q)) => q < kernel.pipes@.len() as int,
                        _ => true,
                    } by {}
                }
            }
        }
        let q0 = pre.manager.queue();
        let q1 = kernel.manager.queue();
        assert forall|qi: int| 0 <= qi < q1.len() implies kernel.queue_entry_ok(
            #[trigger] q1[qi],
        ) by {
            if qi < q0.len() {
                let e = q0[qi];
                assert(pre.queue_entry_ok(e));
                assert(e.id != pid) by {
                    if e.id == pid {
                        assert(pre.has_task(pid));
                        assert(!seq_has_pid(ts0, pid));
                    }
                }
                assert(kernel.task_of(e.id) == pre.task_of(e.id));
            } else {
                assert(q1[qi] == SchedInfo { id: pid, pass: 0 });
            }
        }
        assert forall|qi: int, qj: int| 0 <= qi < qj < q1.len() implies (#[trigger] q1[qi]).id != (
        #[trigger] q1[qj]).id by {
            if qj == q0.len() as int {
                assert(pre.queue_entry_ok(q0[qi]));
                if q0[qi].id == pid {
                    assert(pre.has_task(pid));
                }
            }
        }
        assert forall|i: int|
            0 <= i < kernel.tasks@.len() && (#[trigger] kernel.tasks@[i]).task_status
                is Ready implies exists|qi: int|
            0 <= qi < q1.len() && (#[trigger] q1[qi]).id == kernel.tasks@[i].pid by {
            if i < ts0.len() {
                assert(ts0[i].task_status is Ready);
                let oqi = choose|qi: int|
                    0 <= qi < q0.len() && (#[trigger] q0[qi]).id == ts0[i].pid;
                assert(q1[oqi].id == kernel.tasks@[i].pid);
            } else {
                assert(q1[q0.len() as int].id == pid);
            }
        }
        if pre.running_ok() {
            assert(kernel.has_task(kernel.current)) by {
                assert(pre.current != pid) by {
                    if pre.current == pid {
                        assert(pre.has_task(pid));
                    }
                }
            }
            assert forall|i: int|
                0 <= i < kernel.tasks@.len() && (#[trigger] kernel.tasks@[i]).task_status
                    is Running implies kernel.tasks@[i].pid == kernel.current by {
                if i < ts0.len() {
                } else {
                    assert(kernel.tasks@[i] == t);
                }
            }
        }
    }
    pid
}

/// Replaces the running task's program in place: a fresh address space
/// and entry context from the loader, the same identity and descriptor
/// table.
#[verifier::rlimit(60)]
pub fn exec(kernel: &mut Kernel, address_space: AddressSpace, entry_cx: usize)
    requires
        old(kernel).wf(),
        old(kernel).running_ok(),
        address_space.wf(),
    ensures
        final(kernel).wf(),
        final(kernel).running_ok(),
        final(kernel).task_of(old(kernel).current) == (TaskControlBlock {
            address_space,
            task_cx_ptr: entry_cx,
            ..old(kernel).task_of(old(kernel).current)
        }),
        forall|p: usize| #[trigger] final(kernel).has_task(p) == old(kernel).has_task(p),
        forall|p: usize|
            p != old(kernel).current && old(kernel).has_task(p) ==> (
            #[trigger] final(kernel).task_of(p)) == old(kernel).task_of(p),
        final(kernel).manager == old(kernel).manager,
        final(kernel).pipes == old(kernel).pipes,
        final(kernel).current == old(kernel).current,
        final(kernel).next_pid == old(kernel).next_pid,
{
    let ci = kernel.task_index_must(kernel.current);
    kernel.tasks[ci].address_space = address_space;
    kernel.tasks[ci].task_cx_ptr = entry_cx;
    proof {
        let pre = *old(kernel);
        let t2 = TaskControlBlock {
            address_space,
            task_cx_ptr: entry_cx,
            ..pre.tasks@[ci as int]
        };
        assert(kernel.tasks@ =~= pre.tasks@.update(ci as int, t2));
        assert(t2.wf());
        assert(caps_ok(t2, kernel.pipes@.len() as int)) by {
            assert forall|f: int|
                0 <= f < t2.fd_table@.len() implies match #[trigger] t2.fd_table@[f] {
                Some(FileCap::PipeRead(q)) => q < kernel.pipes@.len() as int,
                Some(FileCap::PipeWrite(q)) => q < kernel.pipes@.len() as int,
                _ => true,
            } by {
                assert(t2.fd_table@[f] == pre.tasks@[ci as int].fd_table@[f]);
            }
        }
        lemma_update_current_wf(pre, *kernel, t2);
    }
}

impl Kernel {
    /// Registers a freshly built child of the running task: assigns it
    /// the announced identity, links it into the parent's children and
    /// queues it on the ready set.
    #[verifier::rlimit(80)]
    #[verifier::spinoff_prover]
    fn register_child(&mut self, t: TaskControlBlock)
        requires
            old(self).wf(),
            old(self).running_ok(),
            t.pid == old(self).next_pid,
            old(self).next_pid < (isize::MAX as usize),
            t.wf(),
            caps_ok(t, old(self).pipes@.len() as int),
            t.task_status is Ready,
            t.pass == 0,
            t.parent == Some(old(self).current),
        ensures
            final(self).wf(),
            final(self).running_ok(),
            final(self).next_pid == old(self).next_pid + 1,
            final(self).has_task(t.pid),
            final(self).task_of(t.pid) == t,
            final(self).task_of(old(self).current).children@ == old(self).task_of(
                old(self).current,
            ).children@.push(t.pid),
            final(self).task_of(old(self).current) == (TaskControlBlock {
                children: final(self).task_of(old(self).current).children,
                ..old(self).task_of(old(self).current)
            }),
            forall|p: usize|
                p != t.pid ==> #[trigger] final(self).has_task(p) == old(self).has_task(p),
            forall|p: usize|
                p != t.pid && p != old(self).current && old(self).has_task(p) ==> (
                #[trigger] final(self).task_of(p)) == old(self).task_of(p),
            final(self).manager.queue() == old(self).manager.queue().push(
                SchedInfo { id: t.pid, pass: 0 },
            ),
            final(self).pipes == old(self).pipes,
            final(self).current == old(self).current,
    {
        let pid = self.next_pid;
        self.next_pid = self.next_pid + 1;
        proof {
            assert(!seq_has_pid(old(self).tasks@, pid)) by {
                if seq_has_pid(old(self).tasks@, pid) {
                    let c = choose|i: int|
                        0 <= i < old(self).tasks@.len() && (#[trigger] old(self).tasks@[i]).pid
                            == pid;
                    assert(old(self).tasks@[c].pid < pid);
                }
            }
            lemma_lookup_push(old(self).tasks@, t);
        }
        self.tasks.push(t);
        let ghost s1 = *self;
        let ci = self.task_index_must(self.current);
        self.tasks[ci].children.push(pid);
        self.manager.add(SchedInfo { id: pid, pass: 0 });
        proof {
            let pre = *old(self);
            let ts0 = pre.tasks@;
            let ts1 = ts0.push(t);
            let par1 = seq_task_of(ts1, pre.current);
            let par2 = TaskControlBlock { children: self.tasks@[ci as int].children, ..par1 };
            assert(self.tasks@ =~= ts1.update(ci as int, par2));
            lemma_lookup_update(ts1, ci as int, par2);
            assert(pre.current != pid) by {
                if pre.current == pid {
                    assert(pre.has_task(pid));
                }
            }
            assert(par1 == pre.task_of(pre.current));
            assert(par2.children@ =~= par1.children@.push(pid));
            assert forall|p: usize| p != pid implies #[trigger] self.has_task(p) == pre.has_task(
                p,
            ) by {
                assert(seq_has_pid(ts1.update(ci as int, par2), p) == seq_has_pid(ts1, p));
            }
            assert(self.task_of(pid) == t) by {
                assert(seq_task_of(ts1.update(ci as int, par2), pid) == seq_task_of(ts1, pid));
            }
            assert(self.task_of(pre.current) == par2);
            assert forall|p: usize|
                p != pid && p != pre.current && pre.has_task(p) implies (
            #[trigger] self.task_of(p)) == pre.task_of(p) by {
                assert(seq_task_of(ts1.update(ci as int, par2), p) == seq_task_of(ts1, p));
                assert(seq_task_of(ts1, p) == seq_task_of(ts0, p));
            }
            // invariant
            assert forall|i: int| 0 <= i < self.tasks@.len() implies (
            #[trigger] self.tasks@[i]).wf() && caps_ok(self.tasks@[i], self.pipes@.len() as int)
                && self.tasks@[i].pid < self.next_pid && self.tasks@[i].pid > 0 by {
                if i < ts0.len() {
                    assert(ts0[i].wf() && caps_ok(ts0[i], pre.pipes@.len() as int));
                    if i == ci as int {
                        assert(self.tasks@[i] == par2);
                        assert(par1 == ts0[i]);
                        assert(par2.wf());
                        assert(caps_ok(par2, self.pipes@.len() as int)) by {
                            assert forall|f: int|
                                0 <= f < par2.fd_table@.len() implies match #[trigger] par2.fd_table@[f] {
                                Some(FileCap::PipeRead(q)) => q < self.pipes@.len() as int,
                                Some(FileCap::PipeWrite(q)) => q < self.pipes@.len() as int,
                                _ => true,
                            } by {
                                assert(par2.fd_table@[f] == ts0[i].fd_table@[f]);
                            }
                        }
                    } else {
                        assert(self.tasks@[i] == ts0[i]);
                    }
                } else {
                    assert(self.tasks@[i] == t || self.tasks@[i] == par2);
                }
            }
            let q0 = pre.manager.queue();
            let q1 = self.manager.queue();
            assert forall|qi: int| 0 <= qi < q1.len() implies self.queue_entry_ok(
                #[trigger] q1[qi],
            ) by {
                if qi < q0.len() {
                    let e = q0[qi];
                    assert(pre.queue_entry_ok(e));
                    assert(e.id != pid) by {
                        if e.id == pid {
                            assert(pre.has_task(pid));
                        }
                    }
                    assert(e.id != pre.current) by {
                        if e.id == pre.current {
                            assert(pre.task_of(pre.current).task_status is Ready);
                            assert(pre.task_of(pre.current).task_status is Running);
                        }
                    }
                    assert(self.task_of(e.id) == pre.task_of(e.id));
                } else {
                    assert(q1[qi] == SchedInfo { id: pid, pass: 0 });
                }
            }
            assert forall|qi: int, qj: int| 0 <= qi < qj < q1.len() implies (
            #[trigger] q1[qi]).id != (#[trigger] q1[qj]).id by {
                if qj == q0.len() as int {
                    assert(pre.queue_entry_ok(q0[qi]));
                    if q0[qi].id == pid {
                        assert(pre.has_task(pid));
                    }
                }
            }
            assert forall|i: int|
                0 <= i < self.tasks@.len() && (#[trigger] self.tasks@[i]).task_status
                    is Ready implies exists|qi: int|
                0 <= qi < q1.len() && (#[trigger] q1[qi]).id == self.tasks@[i].pid by {
                if i < ts0.len() {
                    assert(ts0[i].task_status == self.tasks@[i].task_status);
                    assert(ts0[i].pid == self.tasks@[i].pid);
                    let oqi = choose|qi: int|
                        0 <= qi < q0.len() && (#[trigger] q0[qi]).id == ts0[i].pid;
                    assert(q1[oqi].id == self.tasks@[i].pid);
                } else {
                    assert(q1[q0.len() as int].id == pid);
                    assert(self.tasks@[i].pid == pid);
                }
            }
            assert(self.running_ok()) by {
                assert(self.task_of(self.current) == par2);
                assert forall|i: int|
                    0 <= i < self.tasks@.len() && (#[trigger] self.tasks@[i]).task_status
                        is Running implies self.tasks@[i].pid == self.current by {
                    if i < ts0.len() {
                        assert(ts0[i].task_status == self.tasks@[i].task_status);
                        assert(ts0[i].pid == self.tasks@[i].pid);
                    } else {
                        assert(self.tasks@[i].pid == pid || self.tasks@[i] == par2);
                    }
                }
            }
        }
    }
}

/// What `fork` did: `child` is the fresh identity, its record duplicates
/// the parent's address space, descriptor table and priority with a
/// fresh mailbox and zero scheduling state, the parent gains the child,
/// the ready set gains the child's record, shared pipe ends are counted
/// once more, and nothing else changes.
pub open spec fn forked(pre: Kernel, post: Kernel, child: usize) -> bool {
    &&& post.wf()
    &&& post.running_ok()
    &&& child == pre.next_pid
    &&& post.next_pid == pre.next_pid + 1
    &&& post.has_task(child)
    &&& ({
        let t = post.task_of(child);
        let c = pre.task_of(pre.current);
        &&& t.task_status is Ready
        &&& t.pass == 0
        &&& t.exec_time_ms == 0
        &&& t.priority == c.priority
        &&& t.parent == Some(pre.current)
        &&& t.children@ == Seq::<usize>::empty()
        &&& spaces_equiv(c.address_space, t.address_space)
        &&& t.fd_table@ == c.fd_table@
        &&& t.mailbox.pending() == Seq::<Seq<u8>>::empty()
    })
    &&& post.task_of(pre.current).children@ == pre.task_of(pre.current).children@.push(child)
    &&& post.task_of(pre.current) == (TaskControlBlock {
        children: post.task_of(pre.current).children,
        ..pre.task_of(pre.current)
    })
    &&& (forall|p: usize| p != child ==> #[trigger] post.has_task(p) == pre.has_task(p))
    &&& (forall|p: usize|
        p != child && p != pre.current && pre.has_task(p) ==> (#[trigger] post.task_of(p))
            == pre.task_of(p))
    &&& post.manager.queue() == pre.manager.queue().push(SchedInfo { id: child, pass: 0 })
    &&& post.current == pre.current
    &&& post.pipes@.len() == pre.pipes@.len()
    &&& (forall|p: int|
        0 <= p < pre.pipes@.len() ==> (#[trigger] post.pipes@[p]).buffered()
            == pre.pipes@[p].buffered() && post.pipes@[p].read_end_count()
            >= pre.pipes@[p].read_end_count() && post.pipes@[p].write_end_count()
            >= pre.pipes@[p].write_end_count())
}

/// Forks the running task: the child gets a fresh identity, a
/// value-equivalent copy of the parent's address space, a duplicate of
/// its descriptor table with shared ownership of every open pipe, the
/// parent's priority, a fresh empty mailbox, and a zero pass and run
/// time. The parent keeps running; the child is queued `Ready`. Returns
/// the child's identity (the child itself observes 0 through its own
/// trap context).
#[verifier::rlimit(80)]
#[verifier::spinoff_prover]
pub fn fork(kernel: &mut Kernel) -> (child: usize)
    requires
        old(kernel).wf(),
        old(kernel).running_ok(),
        old(kernel).next_pid < (isize::MAX as usize),
    ensures
        child == old(kernel).next_pid,
        forked(*old(kernel), *final(kernel), child),
{
    let child_pid = kernel.next_pid;
    let ci = kernel.task_index_must(kernel.current);
    let space2 = kernel.tasks[ci].address_space.clone_space();
    // duplicate the descriptor table, sharing each open pipe end
    let mut fd2: Vec<Option<FileCap>> = Vec::new();
    let nfd = kernel.tasks[ci].fd_table.len();
    let mut f: usize = 0;
    while f < nfd
        invariant
            *kernel == *old(kernel),
            ci < kernel.tasks@.len(),
            nfd == kernel.tasks@[ci as int].fd_table@.len(),
            f <= nfd,
            fd2@ == kernel.tasks@[ci as int].fd_table@.take(f as int),
        decreases nfd - f,
    {
        let cap = kernel.tasks[ci].fd_table[f];
        fd2.push(cap);
        proof {
            assert(fd2@ =~= kernel.tasks@[ci as int].fd_table@.take(f + 1 as int));
        }
        f = f + 1;
    }
    proof {
        assert(fd2@ =~= old(kernel).task_of(old(kernel).current).fd_table@);
        assert(old(kernel).tasks@[ci as int].wf());
        assert(caps_ok(old(kernel).tasks@[ci as int], old(kernel).pipes@.len() as int));
    }
    let mut g: usize = 0;
    while g < fd2.len()
        invariant
            kernel.tasks == old(kernel).tasks,
            kernel.manager == old(kernel).manager,
            kernel.current == old(kernel).current,
            kernel.next_pid == old(kernel).next_pid,
            g <= fd2@.len(),
            fd2@ == old(kernel).task_of(old(kernel).current).fd_table@,
            caps_ok(old(kernel).task_of(old(kernel).current), old(kernel).pipes@.len() as int),
            kernel.pipes@.len() == old(kernel).pipes@.len(),
            forall|p: int|
                0 <= p < old(kernel).pipes@.len() ==> (#[trigger] kernel.pipes@[p]).wf() && kernel.pipes@[p].buffered()
                    == old(kernel).pipes@[p].buffered() && kernel.pipes@[p].read_end_count() >= old(
                    kernel,
                ).pipes@[p].read_end_count() && kernel.pipes@[p].write_end_count() >= old(
                    kernel,
                ).pipes@[p].write_end_count(),
        decreases fd2@.len() - g,
    {
        proof {
            assert(fd2@[g as int] == old(kernel).task_of(old(kernel).current).fd_table@[g as int]);
        }
        match fd2[g] {
            Some(FileCap::PipeRead(p)) => {
                kernel.pipes[p].dup_read_end();
            },
            Some(FileCap::PipeWrite(p)) => {
                kernel.pipes[p].dup_write_end();
            },
            _ => {},
        }
        g = g + 1;
    }
    let prio = kernel.tasks[ci].priority;
    let cx = kernel.tasks[ci].task_cx_ptr;
    let child = TaskControlBlock {
        pid: child_pid,
        task_cx_ptr: cx,
        task_status: TaskStatus::Ready,
        exec_time_ms: 0,
        priority: prio,
        pass: 0,
        parent: Some(kernel.current),
        children: Vec::new(),
        fd_table: fd2,
        address_space: space2,
        mailbox: crate::mailbox::Mailbox::new(),
        exit_code: 0,
    };
    proof {
        assert(child.wf());
        assert(caps_ok(child, kernel.pipes@.len() as int)) by {
            assert forall|q: int| 0 <= q < child.fd_table@.len() implies match #[trigger] child.fd_table@[q] {
                Some(FileCap::PipeRead(x)) => x < kernel.pipes@.len() as int,
                Some(FileCap::PipeWrite(x)) => x < kernel.pipes@.len() as int,
                _ => true,
            } by {
                assert(child.fd_table@[q] == old(kernel).task_of(
                    old(kernel).current,
                ).fd_table@[q]);
            }
        }
        assert(kernel.wf()) by {
            assert forall|i: int| 0 <= i < kernel.tasks@.len() implies (
            #[trigger] kernel.tasks@[i]).wf() && caps_ok(
                kernel.tasks@[i],
                kernel.pipes@.len() as int,
            ) && kernel.tasks@[i].pid < kernel.next_pid && kernel.tasks@[i].pid > 0 by {
                assert(kernel.tasks@[i] == old(kernel).tasks@[i]);
                assert(old(kernel).tasks@[i].wf() && caps_ok(
                    old(kernel).tasks@[i],
                    old(kernel).pipes@.len() as int,
                ));
            }
        }
    }
    kernel.register_child(child);
    child_pid
}

/// Launches a named program directly: a fresh task from the loaded
/// image, made a child of the running task, queued `Ready`. Returns the
/// new identity.
pub fn spawn(kernel: &mut Kernel, address_space: AddressSpace, entry_cx: usize) -> (pid: usize)
    requires
        old(kernel).wf(),
        old(kernel).running_ok(),
        address_space.wf(),
        old(kernel).next_pid < (isize::MAX as usize),
    ensures
        final(kernel).wf(),
        final(kernel).running_ok(),
        pid == old(kernel).next_pid,
        final(kernel).next_pid == old(kernel).next_pid + 1,
        final(kernel).has_task(pid),
        ({
            let t = final(kernel).task_of(pid);
            &&& t.task_status is Ready
            &&& t.pass == 0
            &&& t.exec_time_ms == 0
            &&& t.priority == DEFAULT_PRIORITY
            &&& t.parent == Some(old(kernel).current)
            &&& t.children@ == Seq::<usize>::empty()
            &&& t.address_space == address_space
            &&& t.task_cx_ptr == entry_cx
            &&& t.mailbox.pending() == Seq::<Seq<u8>>::empty()
        }),
        final(kernel).task_of(old(kernel).current).children@ == old(kernel).task_of(
            old(kernel).current,
        ).children@.push(pid),
        final(kernel).task_of(old(kernel).current) == (TaskControlBlock {
            children: final(kernel).task_of(old(kernel).current).children,
            ..old(kernel).task_of(old(kernel).current)
        }),
        forall|p: usize|
            p != pid ==> #[trigger] final(kernel).has_task(p) == old(kernel).has_task(p),
        forall|p: usize|
            p != pid && p != old(kernel).current && old(kernel).has_task(p) ==> (
            #[trigger] final(kernel).task_of(p)) == old(kernel).task_of(p),
        final(kernel).manager.queue() == old(kernel).manager.queue().push(
            SchedInfo { id: pid, pass: 0 },
        ),
        final(kernel).pipes == old(kernel).pipes,
        final(kernel).current == old(kernel).current,
{
    let pid = kernel.next_pid;
    let mut t = TaskControlBlock::new(pid, address_space, entry_cx);
    t.parent = Some(kernel.current);
    proof {
        assert(t.wf());
        assert(caps_ok(t, kernel.pipes@.len() as int)) by {
            assert forall|f: int| 0 <= f < t.fd_table@.len() implies match #[trigger] t.fd_table@[f] {
                Some(FileCap::PipeRead(q)) => q < kernel.pipes@.len() as int,
                Some(FileCap::PipeWrite(q)) => q < kernel.pipes@.len() as int,
                _ => true,
            } by {}
        }
    }
    kernel.register_child(t);
    pid
}

/// Whether the wait operation's argument accepts child `ch`: `-1` waits
/// for any child, a non-negative argument for that identity alone.
pub open spec fn spec_child_matches(pid: isize, ch: usize) -> bool {
    pid == -1 || ch == pid as usize
}

/// Child `ch` can be reaped: it exists and has exited.
pub open spec fn reapable(k: Kernel, ch: usize) -> bool {
    k.has_task(ch) && k.task_of(ch).task_status is Zombie
}

/// What one wait step did. With no matching child the caller gets `-1`;
/// with a matching child but no zombie among them it gets `-2` and must
/// retry after yielding; otherwise the first matching zombie child is
/// reaped: its identity and exit code come back, its record leaves the
/// process table and the parent's children, and nothing else changes.
pub open spec fn waited(pre: Kernel, post: Kernel, pid: isize, r0: isize, r1: i32) -> bool {
    &&& post.wf()
    &&& post.running_ok()
    &&& (forall|i: int|
        0 <= i < pre.task_of(pre.current).children@.len() ==> !spec_child_matches(
            pid,
            #[trigger] pre.task_of(pre.current).children@[i],
        )) ==> r0 == -1 && r1 == 0 && post == pre
    &&& ((exists|i: int|
        0 <= i < pre.task_of(pre.current).children@.len() && spec_child_matches(
            pid,
            #[trigger] pre.task_of(pre.current).children@[i],
        )) && (forall|i: int|
        0 <= i < pre.task_of(pre.current).children@.len() && spec_child_matches(
            pid,
            #[trigger] pre.task_of(pre.current).children@[i],
        ) ==> !reapable(pre, pre.task_of(pre.current).children@[i]))) ==> r0 == -2 && r1 == 0
        && post == pre
    &&& (exists|i: int|
        0 <= i < pre.task_of(pre.current).children@.len() && spec_child_matches(
            pid,
            #[trigger] pre.task_of(pre.current).children@[i],
        ) && reapable(pre, pre.task_of(pre.current).children@[i])) ==> (exists|i: int|
        #![trigger pre.task_of(pre.current).children@[i]]
        ({
            let kids = pre.task_of(pre.current).children@;
            let ch = kids[i];
            &&& 0 <= i < kids.len()
            &&& spec_child_matches(pid, kids[i])
            &&& reapable(pre, ch)
            &&& (forall|j: int|
                0 <= j < i ==> !(spec_child_matches(pid, #[trigger] kids[j]) && reapable(
                    pre,
                    kids[j],
                )))
            &&& r0 == ch as isize
            &&& r1 == pre.task_of(ch).exit_code
            &&& !post.has_task(ch)
            &&& (forall|p: usize|
                p != ch ==> #[trigger] post.has_task(p) == pre.has_task(p))
            &&& post.task_of(pre.current).children@ == kids.remove(i)
            &&& post.task_of(pre.current) == (TaskControlBlock {
                children: post.task_of(pre.current).children,
                ..pre.task_of(pre.current)
            })
            &&& (forall|p: usize|
                p != ch && p != pre.current && pre.has_task(p) ==> (
                #[trigger] post.task_of(p)) == pre.task_of(p))
            &&& post.manager == pre.manager
            &&& post.pipes == pre.pipes
            &&& post.next_pid == pre.next_pid
            &&& post.current == pre.current
        }))
}

/// One non-blocking step of waiting for a child.
///
/// Fails with `-1` when no child of the running task matches the
/// argument; reports `-2` (try again after yielding) when a matching
/// child exists but none has exited; otherwise reaps the first matching
/// zombie child: the child's record leaves the process table and the
/// parent's children, and its identity and exit code are returned.
#[verifier::rlimit(100)]
#[verifier::spinoff_prover]
pub fn waitpid(kernel: &mut Kernel, pid: isize) -> (r: (isize, i32))
    requires
        old(kernel).wf(),
        old(kernel).running_ok(),
        pid == -1 || pid >= 0,
    ensures
        waited(*old(kernel), *final(kernel), pid, r.0, r.1),
{
    let cpid = kernel.current;
    let ci = kernel.task_index_must(cpid);
    let mut kids: Vec<usize> = Vec::new();
    let nkids = kernel.tasks[ci].children.len();
    let mut i: usize = 0;
    while i < nkids
        invariant
            *kernel == *old(kernel),
            ci < kernel.tasks@.len(),
            nkids == kernel.tasks@[ci as int].children@.len(),
            i <= nkids,
            kids@ == kernel.tasks@[ci as int].children@.take(i as int),
        decreases nkids - i,
    {
        let ch = kernel.tasks[ci].children[i];
        kids.push(ch);
        proof {
            assert(kids@ =~= kernel.tasks@[ci as int].children@.take(i + 1 as int));
        }
        i = i + 1;
    }
    proof {
        assert(kids@ =~= old(kernel).task_of(cpid).children@);
    }
    let mut found = false;
    let mut j: usize = 0;
    while j < kids.len()
        invariant
            *kernel == *old(kernel),
            old(kernel).wf(),
            old(kernel).running_ok(),
            pid == -1 || pid >= 0,
            cpid == old(kernel).current,
            kids@ == old(kernel).task_of(old(kernel).current).children@,
            j <= kids@.len(),
            found == (exists|m: int|
                0 <= m < j && spec_child_matches(pid, #[trigger] kids@[m])),
            forall|m: int|
                0 <= m < j ==> !(spec_child_matches(pid, #[trigger] kids@[m]) && reapable(
                    *old(kernel),
                    kids@[m],
                )),
        decreases kids@.len() - j,
    {
        let ch = kids[j];
        let matches_arg = if pid == -1 {
            true
        } else {
            ch == pid as usize
        };
        if matches_arg {
            found = true;
            match kernel.task_index(ch) {
                Some(k) => {
                    if kernel.tasks[k].task_status == TaskStatus::Zombie {
                        let code = kernel.tasks[k].exit_code;
                        proof {
                            lemma_task_at(old(kernel).tasks@, k as int);
                            assert(old(kernel).task_of(ch).pid < old(kernel).next_pid);
                            lemma_lookup_remove(old(kernel).tasks@, k as int);
                            assert(ch != cpid) by {
                                if ch == cpid {
                                    assert(old(kernel).task_of(cpid).task_status is Running);
                                }
                            }
                        }
                        kernel.tasks.remove(k);
                        let ci2 = kernel.task_index_must(cpid);
                        kernel.tasks[ci2].children.remove(j);
                        proof {
                            let pre = *old(kernel);
                            let ts1 = pre.tasks@.remove(k as int);
                            let par1 = seq_task_of(ts1, cpid);
                            let par2 = TaskControlBlock {
                                children: kernel.tasks@[ci2 as int].children,
                                ..par1
                            };
                            assert(par1 == pre.task_of(cpid));
                            assert(par2.children@ == par1.children@.remove(j as int));
                            assert(kernel.tasks@ =~= ts1.update(ci2 as int, par2));
                            lemma_lookup_update(ts1, ci2 as int, par2);
                            assert(!kernel.has_task(ch)) by {
                                assert(seq_has_pid(ts1.update(ci2 as int, par2), ch)
                                    == seq_has_pid(ts1, ch));
                            }
                            assert forall|p: usize|
                                p != ch implies #[trigger] kernel.has_task(p) == pre.has_task(
                                p,
                            ) by {
                                assert(seq_has_pid(ts1.update(ci2 as int, par2), p)
                                    == seq_has_pid(ts1, p));
                            }
                            assert(kernel.task_of(cpid) == par2);
                            assert forall|p: usize|
                                p != ch && p != cpid && pre.has_task(p) implies (
                            #[trigger] kernel.task_of(p)) == pre.task_of(p) by {
                                assert(seq_task_of(ts1.update(ci2 as int, par2), p)
                                    == seq_task_of(ts1, p));
                                assert(seq_task_of(ts1, p) == seq_task_of(pre.tasks@, p));
                            }
                            // the kernel invariant survives the reap
                            assert forall|idx: int| 0 <= idx < kernel.tasks@.len() implies (
                            #[trigger] kernel.tasks@[idx]).wf() && caps_ok(
                                kernel.tasks@[idx],
                                kernel.pipes@.len() as int,
                            ) && kernel.tasks@[idx].pid < kernel.next_pid
                                && kernel.tasks@[idx].pid > 0 by {
                                lemma_task_at(kernel.tasks@, idx);
                                let p = kernel.tasks@[idx].pid;
                                assert(kernel.has_task(p));
                                assert(pre.has_task(p));
                                let pidx = seq_idx_of(pre.tasks@, p);
                                lemma_task_at(pre.tasks@, pidx);
                                assert(pre.tasks@[pidx].wf() && caps_ok(
                                    pre.tasks@[pidx],
                                    pre.pipes@.len() as int,
                                ));
                                let a = kernel.tasks@[idx];
                                let b = pre.task_of(p);
                                assert(a == kernel.task_of(p));
                                if p == cpid {
                                    assert(a == par2);
                                    assert(a.wf());
                                    assert(caps_ok(a, kernel.pipes@.len() as int)) by {
                                        assert forall|ff: int|
                                            0 <= ff < a.fd_table@.len() implies match #[trigger] a.fd_table@[ff] {
                                            Some(FileCap::PipeRead(q)) => q < kernel.pipes@.len() as int,
                                            Some(FileCap::PipeWrite(q)) => q < kernel.pipes@.len() as int,
                                            _ => true,
                                        } by {
                                            assert(a.fd_table@[ff] == b.fd_table@[ff]);
                                        }
                                    }
                                } else {
                                    assert(a == b);
                                }
                            }
                            assert forall|qi: int|
                                0 <= qi < kernel.manager.queue().len() implies kernel.queue_entry_ok(
                                #[trigger] kernel.manager.queue()[qi],
                            ) by {
                                let e = kernel.manager.queue()[qi];
                                assert(pre.queue_entry_ok(e));
                                assert(e.id != ch) by {
                                    if e.id == ch {
                                        assert(pre.task_of(ch).task_status is Ready);
                                        assert(pre.task_of(ch).task_status is Zombie);
                                    }
                                }
                                assert(e.id != cpid) by {
                                    if e.id == cpid {
                                        assert(pre.task_of(cpid).task_status is Ready);
                                        assert(pre.task_of(cpid).task_status is Running);
                                    }
                                }
                                assert(kernel.task_of(e.id) == pre.task_of(e.id));
                            }
                            assert forall|idx: int|
                                0 <= idx < kernel.tasks@.len() && (
                            #[trigger] kernel.tasks@[idx]).task_status is Ready implies exists|qi: int|
                                0 <= qi < kernel.manager.queue().len() && (
                                #[trigger] kernel.manager.queue()[qi]).id
                                    == kernel.tasks@[idx].pid by {
                                lemma_task_at(kernel.tasks@, idx);
                                let p = kernel.tasks@[idx].pid;
                                assert(pre.has_task(p));
                                let pidx = seq_idx_of(pre.tasks@, p);
                                lemma_task_at(pre.tasks@, pidx);
                                assert(kernel.task_of(p).task_status == pre.task_of(
                                    p,
                                ).task_status);
                                assert(pre.tasks@[pidx].task_status is Ready);
                                let oqi = choose|qi: int|
                                    0 <= qi < pre.manager.queue().len() && (
                                    #[trigger] pre.manager.queue()[qi]).id
                                        == pre.tasks@[pidx].pid;
                                assert(kernel.manager.queue() == pre.manager.queue());
                                assert(kernel.manager.queue()[oqi].id == kernel.tasks@[idx].pid);
                            }
                            assert(kernel.running_ok()) by {
                                assert(kernel.task_of(cpid).task_status is Running);
                                assert forall|idx: int|
                                    0 <= idx < kernel.tasks@.len() && (
                                #[trigger] kernel.tasks@[idx]).task_status is Running implies kernel.tasks@[idx].pid
                                    == kernel.current by {
                                    lemma_task_at(kernel.tasks@, idx);
                                    let p = kernel.tasks@[idx].pid;
                                    assert(pre.has_task(p));
                                    let pidx = seq_idx_of(pre.tasks@, p);
                                    lemma_task_at(pre.tasks@, pidx);
                                    assert(kernel.task_of(p).task_status == pre.task_of(
                                        p,
                                    ).task_status);
                                    assert(pre.tasks@[pidx].pid == pre.current);
                                }
                            }
                            assert(kids@[j as int] == ch);
                            assert(reapable(pre, ch));
                        }
                        return (ch as isize, code);
                    }
                },
                None => {},
            }
        }
        proof {
            if matches_arg {
                assert(spec_child_matches(pid, kids@[j as int]));
                assert(!reapable(*old(kernel), kids@[j as int])) by {
                    if reapable(*old(kernel), kids@[j as int]) {
                        assert(old(kernel).has_task(ch));
                    }
                }
            } else {
                assert(!spec_child_matches(pid, kids@[j as int]));
            }
        }
        j = j + 1;
    }
    if found {
        (-2, 0)
    } else {
        (-1, 0)
    }
}

/// Applies an `mmap` request to the running task's own address space.
#[verifier::rlimit(60)]
pub fn task_mmap(kernel: &mut Kernel, start: usize, len: usize, prot: usize) -> (r: isize)
    requires
        old(kernel).wf(),
        old(kernel).running_ok(),
    ensures
        final(kernel).wf(),
        final(kernel).running_ok(),
        r == -1 || r == 0,
        (r == -1) == mmap_rejected(
            old(kernel).task_of(old(kernel).current).address_space,
            start as int,
            len as int,
            prot,
        ),
        r == -1 || len == 0 ==> final(kernel).task_of(old(kernel).current).address_space == old(
            kernel,
        ).task_of(old(kernel).current).address_space,
        r == 0 && len > 0 ==> mmap_applied(
            old(kernel).task_of(old(kernel).current).address_space,
            final(kernel).task_of(old(kernel).current).address_space,
            start as int,
            len as int,
            prot,
        ),
        final(kernel).task_of(old(kernel).current) == (TaskControlBlock {
            address_space: final(kernel).task_of(old(kernel).current).address_space,
            ..old(kernel).task_of(old(kernel).current)
        }),
        forall|p: usize| #[trigger] final(kernel).has_task(p) == old(kernel).has_task(p),
        forall|p: usize|
            p != old(kernel).current && old(kernel).has_task(p) ==> (
            #[trigger] final(kernel).task_of(p)) == old(kernel).task_of(p),
        final(kernel).manager == old(kernel).manager,
        final(kernel).pipes == old(kernel).pipes,
        final(kernel).current == old(kernel).current,
        final(kernel).next_pid == old(kernel).next_pid,
{
    let ci = kernel.task_index_must(kernel.current);
    proof {
        assert(old(kernel).tasks@[ci as int].wf());
    }
    let r = kernel.tasks[ci].address_space.mmap(start, len, prot);
    proof {
        let pre = *old(kernel);
        let t2 = TaskControlBlock {
            address_space: kernel.tasks@[ci as int].address_space,
            ..pre.tasks@[ci as int]
        };
        assert(kernel.tasks@ =~= pre.tasks@.update(ci as int, t2));
        assert(t2.wf());
        assert(caps_ok(t2, kernel.pipes@.len() as int)) by {
            assert forall|f: int|
                0 <= f < t2.fd_table@.len() implies match #[trigger] t2.fd_table@[f] {
                Some(FileCap::PipeRead(q)) => q < kernel.pipes@.len() as int,
                Some(FileCap::PipeWrite(q)) => q < kernel.pipes@.len() as int,
                _ => true,
            } by {
                assert(t2.fd_table@[f] == pre.tasks@[ci as int].fd_table@[f]);
            }
        }
        lemma_update_current_wf(pre, *kernel, t2);
    }
    r
}

/// Applies a `munmap` request to the running task's own address space.
#[verifier::rlimit(60)]
pub fn task_munmap(kernel: &mut Kernel, start: usize, len: usize) -> (r: isize)
    requires
        old(kernel).wf(),
        old(kernel).running_ok(),
    ensures
        final(kernel).wf(),
        final(kernel).running_ok(),
        r == -1 || r == 0,
        (r == -1) == munmap_rejected(
            old(kernel).task_of(old(kernel).current).address_space,
            start as int,
            len as int,
        ),
        r == -1 ==> final(kernel).task_of(old(kernel).current).address_space == old(
            kernel,
        ).task_of(old(kernel).current).address_space,
        r == 0 ==> munmap_applied(
            old(kernel).task_of(old(kernel).current).address_space,
            final(kernel).task_of(old(kernel).current).address_space,
            start as int,
            len as int,
        ),
        final(kernel).task_of(old(kernel).current) == (TaskControlBlock {
            address_space: final(kernel).task_of(old(kernel).current).address_space,
            ..old(kernel).task_of(old(kernel).current)
        }),
        forall|p: usize| #[trigger] final(kernel).has_task(p) == old(kernel).has_task(p),
        forall|p: usize|
            p != old(kernel).current && old(kernel).has_task(p) ==> (
            #[trigger] final(kernel).task_of(p)) == old(kernel).task_of(p),
        final(kernel).manager == old(kernel).manager,
        final(kernel).pipes == old(kernel).pipes,
        final(kernel).current == old(kernel).current,
        final(kernel).next_pid == old(kernel).next_pid,
{
    let ci = kernel.task_index_must(kernel.current);
    proof {
        assert(old(kernel).tasks@[ci as int].wf());
    }
    let r = kernel.tasks[ci].address_space.munmap(start, len);
    proof {
        let pre = *old(kernel);
        let t2 = TaskControlBlock {
            address_space: kernel.tasks@[ci as int].address_space,
            ..pre.tasks@[ci as int]
        };
        assert(kernel.tasks@ =~= pre.tasks@.update(ci as int, t2));
        assert(t2.wf());
        assert(caps_ok(t2, kernel.pipes@.len() as int)) by {
            assert forall|f: int|
                0 <= f < t2.fd_table@.len() implies match #[trigger] t2.fd_table@[f] {
                Some(FileCap::PipeRead(q)) => q < kernel.pipes@.len() as int,
                Some(FileCap::PipeWrite(q)) => q < kernel.pipes@.len() as int,
                _ => true,
            } by {
                assert(t2.fd_table@[f] == pre.tasks@[ci as int].fd_table@[f]);
            }
        }
        lemma_update_current_wf(pre, *kernel, t2);
    }
    r
}

/// Replacing the running task's record — same identity, status and pass —
/// and possibly growing the pipe registry preserves the kernel
/// invariant, and every other task is untouched.
#[verifier::rlimit(60)]
pub proof fn lemma_update_current_wf(pre: Kernel, post: Kernel, t2: TaskControlBlock)
    requires
        pre.wf(),
        pre.running_ok(),
        post.tasks@ == pre.tasks@.update(seq_idx_of(pre.tasks@, pre.current), t2),
        t2.pid == pre.current,
        t2.wf(),
        caps_ok(t2, post.pipes@.len() as int),
        t2.task_status == pre.task_of(pre.current).task_status,
        t2.pass == pre.task_of(pre.current).pass,
        t2.exec_time_ms == pre.task_of(pre.current).exec_time_ms,
        post.manager == pre.manager,
        post.next_pid == pre.next_pid,
        post.current == pre.current,
        post.pipes@.len() >= pre.pipes@.len(),
        forall|p: int| 0 <= p < post.pipes@.len() ==> (#[trigger] post.pipes@[p]).wf(),
    ensures
        post.wf(),
        post.running_ok(),
        forall|p: usize| #[trigger] post.has_task(p) == pre.has_task(p),
        post.task_of(pre.current) == t2,
        forall|p: usize|
            p != pre.current && pre.has_task(p) ==> (#[trigger] post.task_of(p)) == pre.task_of(p),
{
    let ci = seq_idx_of(pre.tasks@, pre.current);
    assert(0 <= ci < pre.tasks@.len() && pre.tasks@[ci].pid == pre.current) by {
        let c = choose|i: int|
            0 <= i < pre.tasks@.len() && (#[trigger] pre.tasks@[i]).pid == pre.current;
        assert(pre.tasks@[c].pid == pre.current);
    }
    lemma_lookup_update(pre.tasks@, ci, t2);
    assert forall|p: usize| #[trigger] post.has_task(p) == pre.has_task(p) by {
        assert(seq_has_pid(pre.tasks@.update(ci, t2), p) == seq_has_pid(pre.tasks@, p));
    }
    assert(post.task_of(pre.current) == t2) by {
        assert(seq_task_of(pre.tasks@.update(ci, t2), t2.pid) == t2);
    }
    assert forall|p: usize|
        p != pre.current && pre.has_task(p) implies (#[trigger] post.task_of(p)) == pre.task_of(
        p,
    ) by {
        assert(seq_task_of(pre.tasks@.update(ci, t2), p) == seq_task_of(pre.tasks@, p));
    }
    assert forall|i: int| 0 <= i < post.tasks@.len() implies (#[trigger] post.tasks@[i]).wf()
        && caps_ok(post.tasks@[i], post.pipes@.len() as int) && post.tasks@[i].pid < post.next_pid
        && post.tasks@[i].pid > 0 by {
        assert(pre.tasks@[i].wf() && caps_ok(pre.tasks@[i], pre.pipes@.len() as int));
        if i == ci {
            assert(post.tasks@[i] == t2);
        } else {
            assert(post.tasks@[i] == pre.tasks@[i]);
            assert(caps_ok(post.tasks@[i], post.pipes@.len() as int)) by {
                assert forall|f: int|
                    0 <= f < post.tasks@[i].fd_table@.len() implies match #[trigger] post.tasks@[i].fd_table@[f] {
                    Some(FileCap::PipeRead(q)) => q < post.pipes@.len() as int,
                    Some(FileCap::PipeWrite(q)) => q < post.pipes@.len() as int,
                    _ => true,
                } by {
                    assert(post.tasks@[i].fd_table@[f] == pre.tasks@[i].fd_table@[f]);
                }
            }
        }
    }
    assert forall|qi: int| 0 <= qi < post.manager.queue().len() implies post.queue_entry_ok(
        #[trigger] post.manager.queue()[qi],
    ) by {
        let e = post.manager.queue()[qi];
        assert(pre.queue_entry_ok(e));
        if e.id == pre.current {
            assert(post.task_of(e.id) == t2);
        } else {
            assert(post.task_of(e.id) == pre.task_of(e.id));
        }
    }
    assert forall|i: int|
        0 <= i < post.tasks@.len() && (#[trigger] post.tasks@[i]).task_status
            is Ready implies exists|qi: int|
        0 <= qi < post.manager.queue().len() && (#[trigger] post.manager.queue()[qi]).id
            == post.tasks@[i].pid by {
        assert(pre.tasks@[i].task_status is Ready);
        let oqi = choose|qi: int|
            0 <= qi < pre.manager.queue().len() && (#[trigger] pre.manager.queue()[qi]).id
                == pre.tasks@[i].pid;
        assert(post.manager.queue()[oqi].id == post.tasks@[i].pid);
    }
    assert(post.running_ok()) by {
        assert forall|i: int|
            0 <= i < post.tasks@.len() && (#[trigger] post.tasks@[i]).task_status
                is Running implies post.tasks@[i].pid == post.current by {
            assert(pre.tasks@[i].task_status == post.tasks@[i].task_status);
            assert(pre.tasks@[i].pid == post.tasks@[i].pid);
        }
    }
}

/// Changing only the pipe registry — never shrinking it, keeping every
/// pipe well formed — preserves the kernel invariant.
pub proof fn lemma_update_pipes_wf(pre: Kernel, post: Kernel)
    requires
        pre.wf(),
        post.tasks == pre.tasks,
        post.manager == pre.manager,
        post.current == pre.current,
        post.next_pid == pre.next_pid,
        post.pipes@.len() >= pre.pipes@.len(),
        forall|p: int| 0 <= p < post.pipes@.len() ==> (#[trigger] post.pipes@[p]).wf(),
    ensures
        post.wf(),
        pre.running_ok() ==> post.running_ok(),
        forall|p: usize| #[trigger] post.has_task(p) == pre.has_task(p),
        forall|p: usize|
            pre.has_task(p) ==> (#[trigger] post.task_of(p)) == pre.task_of(p),
{
    assert(post.tasks@ == pre.tasks@);
    assert forall|i: int| 0 <= i < post.tasks@.len() implies (#[trigger] post.tasks@[i]).wf()
        && caps_ok(post.tasks@[i], post.pipes@.len() as int) && post.tasks@[i].pid < post.next_pid
        && post.tasks@[i].pid > 0 by {
        assert(pre.tasks@[i].wf() && caps_ok(pre.tasks@[i], pre.pipes@.len() as int));
        assert(caps_ok(post.tasks@[i], post.pipes@.len() as int)) by {
            assert forall|f: int|
                0 <= f < post.tasks@[i].fd_table@.len() implies match #[trigger] post.tasks@[i].fd_table@[f] {
                Some(FileCap::PipeRead(q)) => q < post.pipes@.len() as int,
                Some(FileCap::PipeWrite(q)) => q < post.pipes@.len() as int,
                _ => true,
            } by {
                assert(pre.tasks@[i].fd_table@[f] == post.tasks@[i].fd_table@[f]);
            }
        }
    }
    assert forall|qi: int| 0 <= qi < post.manager.queue().len() implies post.queue_entry_ok(
        #[trigger] post.manager.queue()[qi],
    ) by {
        assert(pre.queue_entry_ok(post.manager.queue()[qi]));
    }
    assert forall|i: int|
        0 <= i < post.tasks@.len() && (#[trigger] post.tasks@[i]).task_status
            is Ready implies exists|qi: int|
        0 <= qi < post.manager.queue().len() && (#[trigger] post.manager.queue()[qi]).id
            == post.tasks@[i].pid by {
        assert(pre.tasks@[i].task_status is Ready);
    }
}

/// Replacing any one task's record — same identity, status, pass and
/// run time — preserves the kernel invariant, and every other task is
/// untouched.
#[verifier::rlimit(60)]
pub proof fn lemma_update_task_wf(pre: Kernel, post: Kernel, pid: usize, t2: TaskControlBlock)
    requires
        pre.wf(),
        pre.running_ok(),
        pre.has_task(pid),
        post.tasks@ == pre.tasks@.update(seq_idx_of(pre.tasks@, pid), t2),
        t2.pid == pid,
        t2.wf(),
        caps_ok(t2, post.pipes@.len() as int),
        t2.task_status == pre.task_of(pid).task_status,
        t2.pass == pre.task_of(pid).pass,
        t2.exec_time_ms == pre.task_of(pid).exec_time_ms,
        post.manager == pre.manager,
        post.next_pid == pre.next_pid,
        post.current == pre.current,
        post.pipes@.len() >= pre.pipes@.len(),
        forall|p: int| 0 <= p < post.pipes@.len() ==> (#[trigger] post.pipes@[p]).wf(),
    ensures
        post.wf(),
        post.running_ok(),
        forall|p: usize| #[trigger] post.has_task(p) == pre.has_task(p),
        post.task_of(pid) == t2,
        forall|p: usize|
            p != pid && pre.has_task(p) ==> (#[trigger] post.task_of(p)) == pre.task_of(p),
{
    let ci = seq_idx_of(pre.tasks@, pid);
    assert(0 <= ci < pre.tasks@.len() && pre.tasks@[ci].pid == pid) by {
        let c = choose|i: int| 0 <= i < pre.tasks@.len() && (#[trigger] pre.tasks@[i]).pid == pid;
        assert(pre.tasks@[c].pid == pid);
    }
    lemma_lookup_update(pre.tasks@, ci, t2);
    assert forall|p: usize| #[trigger] post.has_task(p) == pre.has_task(p) by {
        assert(seq_has_pid(pre.tasks@.update(ci, t2), p) == seq_has_pid(pre.tasks@, p));
    }
    assert(post.task_of(pid) == t2) by {
        assert(seq_task_of(pre.tasks@.update(ci, t2), t2.pid) == t2);
    }
    assert forall|p: usize|
        p != pid && pre.has_task(p) implies (#[trigger] post.task_of(p)) == pre.task_of(p) by {
        assert(seq_task_of(pre.tasks@.update(ci, t2), p) == seq_task_of(pre.tasks@, p));
    }
    assert forall|i: int| 0 <= i < post.tasks@.len() implies (#[trigger] post.tasks@[i]).wf()
        && caps_ok(post.tasks@[i], post.pipes@.len() as int) && post.tasks@[i].pid < post.next_pid
        && post.tasks@[i].pid > 0 by {
        assert(pre.tasks@[i].wf() && caps_ok(pre.tasks@[i], pre.pipes@.len() as int));
        if i == ci {
            assert(post.tasks@[i] == t2);
        } else {
            assert(post.tasks@[i] == pre.tasks@[i]);
            assert(caps_ok(post.tasks@[i], post.pipes@.len() as int)) by {
                assert forall|f: int|
                    0 <= f < post.tasks@[i].fd_table@.len() implies match #[trigger] post.tasks@[i].fd_table@[f] {
                    Some(FileCap::PipeRead(q)) => q < post.pipes@.len() as int,
                    Some(FileCap::PipeWrite(q)) => q < post.pipes@.len() as int,
                    _ => true,
                } by {
                    assert(post.tasks@[i].fd_table@[f] == pre.tasks@[i].fd_table@[f]);
                }
            }
        }
    }
    assert forall|qi: int| 0 <= qi < post.manager.queue().len() implies post.queue_entry_ok(
        #[trigger] post.manager.queue()[qi],
    ) by {
        let e = post.manager.queue()[qi];
        assert(pre.queue_entry_ok(e));
        if e.id == pid {
            assert(post.task_of(e.id) == t2);
        } else {
            assert(post.task_of(e.id) == pre.task_of(e.id));
        }
    }
    assert forall|i: int|
        0 <= i < post.tasks@.len() && (#[trigger] post.tasks@[i]).task_status
            is Ready implies exists|qi: int|
        0 <= qi < post.manager.queue().len() && (#[trigger] post.manager.queue()[qi]).id
            == post.tasks@[i].pid by {
        assert(pre.tasks@[i].task_status is Ready);
        let oqi = choose|qi: int|
            0 <= qi < pre.manager.queue().len() && (#[trigger] pre.manager.queue()[qi]).id
                == pre.tasks@[i].pid;
        assert(post.manager.queue()[oqi].id == post.tasks@[i].pid);
    }
    assert(post.running_ok()) by {
        assert(post.has_task(post.current));
        assert(post.task_of(post.current).task_status is Running) by {
            if pid == pre.current {
                assert(post.task_of(pid) == t2);
            } else {
                assert(post.task_of(pre.current) == pre.task_of(pre.current));
            }
        }
        assert forall|i: int|
            0 <= i < post.tasks@.len() && (#[trigger] post.tasks@[i]).task_status
                is Running implies post.tasks@[i].pid == post.current by {
            assert(pre.tasks@[i].task_status == post.tasks@[i].task_status);
            assert(pre.tasks@[i].pid == post.tasks@[i].pid);
        }
    }
}

/// Marking the current task exited preserves the kernel invariant and
/// leaves nothing running.
#[verifier::rlimit(100)]
#[verifier::spinoff_prover]
proof fn lemma_exit_wf(pre: Kernel, post: Kernel, code: i32, c1: TaskControlBlock)
    requires
        pre.wf(),
        pre.running_ok(),
        c1.pid == pre.current,
        c1.fd_table == pre.task_of(pre.current).fd_table,
        c1.priority == pre.task_of(pre.current).priority,
        c1.mailbox == pre.task_of(pre.current).mailbox,
        c1.address_space == pre.task_of(pre.current).address_space,
        current_exited(pre, post, code, c1),
    ensures
        post.wf(),
        post.no_running(),
{
    let cpid = pre.current;
    assert forall|idx: int| 0 <= idx < post.tasks@.len() implies (
    #[trigger] post.tasks@[idx]).wf() && caps_ok(post.tasks@[idx], post.pipes@.len() as int)
        && post.tasks@[idx].pid < post.next_pid && post.tasks@[idx].pid > 0 by {
        lemma_task_at(post.tasks@, idx);
        let p = post.tasks@[idx].pid;
        assert(post.task_of(p) == post.tasks@[idx]);
        assert(post.has_task(p));
        assert(pre.has_task(p));
        let pidx = seq_idx_of(pre.tasks@, p);
        lemma_task_at(pre.tasks@, pidx);
        assert(pre.tasks@[pidx].wf() && caps_ok(pre.tasks@[pidx], pre.pipes@.len() as int)
            && pre.tasks@[pidx].pid < pre.next_pid && pre.tasks@[pidx].pid > 0);
        let a = post.tasks@[idx];
        let b = pre.task_of(p);
        assert(a == post.task_of(p));
        if p == cpid {
            assert(a.fd_table == c1.fd_table && a.priority == c1.priority && a.mailbox
                == c1.mailbox && a.address_space == c1.address_space);
            assert(c1.fd_table == b.fd_table && c1.priority == b.priority && c1.mailbox
                == b.mailbox && c1.address_space == b.address_space);
            assert(a.task_status is Zombie);
        } else {
            assert(a.fd_table == b.fd_table && a.priority == b.priority && a.mailbox == b.mailbox
                && a.address_space == b.address_space);
            assert(a.task_status == b.task_status && a.pass == b.pass && a.exec_time_ms
                == b.exec_time_ms);
        }
        assert(a.wf());
        assert(caps_ok(a, post.pipes@.len() as int)) by {
            assert forall|f: int| 0 <= f < a.fd_table@.len() implies match #[trigger] a.fd_table@[f] {
                Some(FileCap::PipeRead(q)) => q < post.pipes@.len() as int,
                Some(FileCap::PipeWrite(q)) => q < post.pipes@.len() as int,
                _ => true,
            } by {
                assert(a.fd_table@[f] == b.fd_table@[f]);
            }
        }
    }
    assert forall|qi: int| 0 <= qi < post.manager.queue().len() implies post.queue_entry_ok(
        #[trigger] post.manager.queue()[qi],
    ) by {
        let e = post.manager.queue()[qi];
        assert(pre.queue_entry_ok(e));
        assert(e.id != cpid) by {
            if e.id == cpid {
                assert(pre.task_of(cpid).task_status is Ready);
                assert(pre.task_of(cpid).task_status is Running);
            }
        }
        assert(post.task_of(e.id).task_status == pre.task_of(e.id).task_status);
        assert(post.task_of(e.id).pass == pre.task_of(e.id).pass);
    }
    assert forall|idx: int|
        0 <= idx < post.tasks@.len() && (#[trigger] post.tasks@[idx]).task_status
            is Ready implies exists|qi: int|
        0 <= qi < post.manager.queue().len() && (#[trigger] post.manager.queue()[qi]).id
            == post.tasks@[idx].pid by {
        lemma_task_at(post.tasks@, idx);
        let p = post.tasks@[idx].pid;
        assert(post.has_task(p));
        assert(pre.has_task(p));
        let pidx = seq_idx_of(pre.tasks@, p);
        lemma_task_at(pre.tasks@, pidx);
        assert(post.task_of(p) == post.tasks@[idx]);
        assert(p != cpid) by {
            if p == cpid {
                assert(post.task_of(cpid).task_status is Zombie);
            }
        }
        assert(post.task_of(p).task_status == pre.task_of(p).task_status);
        assert(pre.tasks@[pidx].task_status is Ready);
        let oqi = choose|qi: int|
            0 <= qi < pre.manager.queue().len() && (#[trigger] pre.manager.queue()[qi]).id
                == pre.tasks@[pidx].pid;
        assert(post.manager.queue() == pre.manager.queue());
        assert(post.manager.queue()[oqi].id == post.tasks@[idx].pid);
    }
    assert forall|idx: int| 0 <= idx < post.tasks@.len() implies !((
    #[trigger] post.tasks@[idx]).task_status is Running) by {
        lemma_task_at(post.tasks@, idx);
        let p = post.tasks@[idx].pid;
        assert(post.task_of(p) == post.tasks@[idx]);
        if p != cpid {
            assert(post.has_task(p));
            assert(pre.has_task(p));
            let pidx = seq_idx_of(pre.tasks@, p);
            lemma_task_at(pre.tasks@, pidx);
            assert(post.task_of(p).task_status == pre.task_of(p).task_status);
            if pre.tasks@[pidx].task_status is Running {
                assert(pre.tasks@[pidx].pid == pre.current);
            }
        } else {
            assert(post.task_of(cpid).task_status is Zombie);
        }
    }
}

/// Stride fairness, the charge half: one voluntary suspension of a live
/// task with priority `p >= 2` raises its pass by exactly
/// `BIG_STRIDE / p` (integer division) and its execution time by exactly
/// one quantum.
pub proof fn lemma_stride_charge(c: TaskControlBlock)
    requires
        c.wf(),
        c.task_status is Running,
    ensures
        charged(c).pass == c.pass + BIG_STRIDE / c.priority,
        charged(c).exec_time_ms == c.exec_time_ms + TIME_QUANTUM_MS,
{
    assert(BIG_STRIDE / c.priority <= BIG_STRIDE / 2) by (nonlinear_arith)
        requires
            c.priority >= 2,
    ;
    assert(c.pass * TIME_QUANTUM_MS <= (BIG_STRIDE / 2) * c.exec_time_ms);
    assert(c.exec_time_ms < TIME_BUDGET_MS);
    assert((BIG_STRIDE / 2) * c.exec_time_ms < (BIG_STRIDE / 2) * TIME_BUDGET_MS) by (nonlinear_arith)
        requires
            c.exec_time_ms < TIME_BUDGET_MS,
    ;
    assert(c.pass + BIG_STRIDE / c.priority <= usize::MAX);
    assert(c.exec_time_ms + TIME_QUANTUM_MS <= usize::MAX);
}

/// Stride fairness, the selection half: every dispatch takes a
/// minimum-pass record of the ready set, and the earliest such arrival.
pub proof fn lemma_dispatched_selects_min(
    ts1: Seq<TaskControlBlock>,
    q1: Seq<SchedInfo>,
    post: Kernel,
    pipes1: Seq<Pipe>,
    next_pid1: usize,
)
    requires
        dispatched(ts1, q1, post, pipes1, next_pid1),
    ensures
        exists|i: int|
            (#[trigger] is_first_min(q1, i)) && post.current == q1[i].id && (forall|j: int|
                0 <= j < q1.len() ==> q1[i].pass <= (#[trigger] q1[j]).pass),
{
    let i = choose|i: int|
        (#[trigger] is_first_min(q1, i)) && post.current == q1[i].id && post.manager.queue()
            == q1.remove(i) && seq_has_pid(ts1, q1[i].id) && post.tasks@ == ts1.update(
            seq_idx_of(ts1, q1[i].id),
            (TaskControlBlock { task_status: TaskStatus::Running, ..seq_task_of(ts1, q1[i].id) }),
        ) && post.pipes@ == pipes1 && post.next_pid == next_pid1;
    assert(is_first_min(q1, i) && post.current == q1[i].id);
}

} // verus!
