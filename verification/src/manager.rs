//! The scheduler's ready set: every `Ready` task's scheduling record,
//! ordered by arrival.
//!
//! `fetch` removes the record with the smallest pass, taking the earliest
//! arrival among ties, so relative order among equal-pass tasks is
//! preserved; `get` supports the cross-process lookup that mailbox
//! addressing needs.

use vstd::prelude::*;
use crate::task::SchedInfo;

verus! {

/// `i` is the index `fetch` selects: the earliest record whose pass is
/// minimal over the whole queue.
pub open spec fn is_first_min(q: Seq<SchedInfo>, i: int) -> bool {
    &&& 0 <= i < q.len()
    &&& forall|j: int| 0 <= j < q.len() ==> q[i].pass <= (#[trigger] q[j]).pass
    &&& forall|j: int| 0 <= j < i ==> (#[trigger] q[j]).pass > q[i].pass
}

/// The ready set.
pub struct TaskManager {
    ready_queue: Vec<SchedInfo>,
}

impl TaskManager {
    /// The queued records, in arrival order.
    pub closed spec fn queue(self) -> Seq<SchedInfo> {
        self.ready_queue@
    }

    pub fn new() -> (r: Self)
        ensures
            r.queue() == Seq::<SchedInfo>::empty(),
    {
        Self { ready_queue: Vec::new() }
    }

    /// Appends a record behind every earlier arrival.
    pub fn add(&mut self, task: SchedInfo)
        ensures
            final(self).queue() == old(self).queue().push(task),
    {
        self.ready_queue.push(task);
    }

    /// Removes and returns the earliest minimum-pass record.
    pub fn fetch(&mut self) -> (r: Option<SchedInfo>)
        ensures
            old(self).queue().len() == 0 ==> r is None && *final(self) == *old(self),
            old(self).queue().len() > 0 ==> (exists|i: int|
                (#[trigger] is_first_min(old(self).queue(), i)) && r == Some(
                    old(self).queue()[i],
                ) && final(self).queue() == old(self).queue().remove(i)),
    {
        if self.ready_queue.len() == 0 {
            return None;
        }
        let mut best: usize = 0;
        let mut j: usize = 1;
        while j < self.ready_queue.len()
            invariant
                self.ready_queue@.len() > 0,
                best < j <= self.ready_queue@.len(),
                forall|m: int|
                    0 <= m < j ==> self.ready_queue@[best as int].pass <= (
                    #[trigger] self.ready_queue@[m]).pass,
                forall|m: int|
                    0 <= m < best ==> (#[trigger] self.ready_queue@[m]).pass
                        > self.ready_queue@[best as int].pass,
            decreases self.ready_queue@.len() - j,
        {
            if self.ready_queue[j].pass < self.ready_queue[best].pass {
                best = j;
            }
            j = j + 1;
        }
        let chosen = self.ready_queue[best];
        self.ready_queue.remove(best);
        proof {
            assert(is_first_min(old(self).queue(), best as int));
        }
        Some(chosen)
    }

    /// The record of the ready task with identity `pid`, if one is queued.
    pub fn get(&self, pid: usize) -> (r: Option<SchedInfo>)
        ensures
            match r {
                Some(t) => exists|i: int|
                    0 <= i < self.queue().len() && (#[trigger] self.queue()[i]) == t && t.id == pid,
                None => forall|i: int|
                    0 <= i < self.queue().len() ==> (#[trigger] self.queue()[i]).id != pid,
            },
    {
        let mut i: usize = 0;
        while i < self.ready_queue.len()
            invariant
                i <= self.ready_queue@.len(),
                forall|j: int| 0 <= j < i ==> (#[trigger] self.ready_queue@[j]).id != pid,
            decreases self.ready_queue@.len() - i,
        {
            if self.ready_queue[i].id == pid {
                proof {
                    assert(self.queue()[i as int].id == pid);
                }
                return Some(self.ready_queue[i]);
            }
            i = i + 1;
        }
        None
    }
}

/// Queues a task's record on the ready set.
pub fn add_task(manager: &mut TaskManager, task: SchedInfo)
    ensures
        final(manager).queue() == old(manager).queue().push(task),
{
    manager.add(task);
}

/// Takes the next record to run off the ready set.
pub fn fetch_task(manager: &mut TaskManager) -> (r: Option<SchedInfo>)
    ensures
        old(manager).queue().len() == 0 ==> r is None && *final(manager) == *old(manager),
        old(manager).queue().len() > 0 ==> (exists|i: int|
            (#[trigger] is_first_min(old(manager).queue(), i)) && r == Some(
                old(manager).queue()[i],
            ) && final(manager).queue() == old(manager).queue().remove(i)),
{
    manager.fetch()
}

} // verus!
