//! The concurrency scheduler's state: bounded admission over a batch.
//!
//! Records are admitted in order, each at most once, and run as cooperative
//! tasks; never more are in flight than the connection pool can carry. A
//! completion frees a slot. The first failed completion is fatal: nothing
//! more is admitted, but the records already in flight keep their slots and
//! still complete — one record's permanent failure never touches another's
//! state. The surrounding process drives the tasks; every admission and
//! bookkeeping decision is taken here.

use vstd::prelude::*;

verus! {

/// Where one record of the batch stands.
#[derive(Debug, Clone, Copy, PartialEq, Eq, Structural)]
pub enum TaskState {
    /// Not yet admitted.
    Pending,
    /// Admitted and in flight.
    Running,
    /// Completed successfully.
    Done,
    /// Completed with a permanent failure.
    Failed,
}

/// How many records are in flight.
pub open spec fn count_running(tasks: Seq<TaskState>) -> int
    decreases tasks.len(),
{
    if tasks.len() == 0 {
        0
    } else {
        count_running(tasks.drop_last()) + if tasks.last() is Running {
            1int
        } else {
            0int
        }
    }
}

proof fn lemma_count_running_push(tasks: Seq<TaskState>, v: TaskState)
    ensures
        count_running(tasks.push(v)) == count_running(tasks) + if v is Running {
            1int
        } else {
            0int
        },
{
    assert(tasks.push(v).drop_last() =~= tasks);
}

proof fn lemma_count_running_update(tasks: Seq<TaskState>, i: int, v: TaskState)
    requires
        0 <= i < tasks.len(),
    ensures
        count_running(tasks.update(i, v)) == count_running(tasks) - (
        if tasks[i] is Running {
            1int
        } else {
            0int
        }) + (
        if v is Running {
            1int
        } else {
            0int
        }),
    decreases tasks.len(),
{
    let u = tasks.update(i, v);
    if i == tasks.len() - 1 {
        assert(u.drop_last() =~= tasks.drop_last());
        assert(u.last() == v);
    } else {
        assert(u.drop_last() =~= tasks.drop_last().update(i, v));
        assert(u.last() == tasks.last());
        lemma_count_running_update(tasks.drop_last(), i, v);
    }
}

proof fn lemma_count_running_bounds(tasks: Seq<TaskState>)
    ensures
        0 <= count_running(tasks),
        count_running(tasks) == 0 ==> forall|i: int|
            0 <= i < tasks.len() ==> !((#[trigger] tasks[i]) is Running),
        forall|i: int| 0 <= i < tasks.len() && tasks[i] is Running ==> count_running(tasks) >= 1,
    decreases tasks.len(),
{
    if tasks.len() > 0 {
        lemma_count_running_bounds(tasks.drop_last());
        assert(forall|i: int|
            0 <= i < tasks.len() - 1 ==> (#[trigger] tasks[i]) == tasks.drop_last()[i]);
    }
}

/// The scheduler over one batch: one state cell per record, the admission
/// cursor, the in-flight count, and whether a fatal failure was seen.
#[derive(Debug)]
pub struct Scheduler {
    pub tasks: Vec<TaskState>,
    pub capacity: usize,
    pub next: usize,
    pub running: usize,
    pub fatal: bool,
}

impl Scheduler {
    /// The scheduler's invariant. In particular: never more records in
    /// flight than the capacity, records beyond the cursor still pending,
    /// records behind it admitted (so each is admitted at most once), and
    /// no failed record unless the fatal flag is up.
    pub open spec fn wf(self) -> bool {
        &&& self.capacity >= 1
        &&& self.next <= self.tasks@.len()
        &&& self.running == count_running(self.tasks@)
        &&& self.running <= self.capacity
        &&& forall|i: int|
            self.next <= i < self.tasks@.len() ==> (#[trigger] self.tasks@[i]) is Pending
        &&& forall|i: int| 0 <= i < self.next ==> !((#[trigger] self.tasks@[i]) is Pending)
        &&& (!self.fatal ==> forall|i: int|
            0 <= i < self.tasks@.len() ==> !((#[trigger] self.tasks@[i]) is Failed))
    }

    /// A scheduler for `total` records over a pool of `capacity`
    /// connections.
    pub fn new(total: usize, capacity: usize) -> (s: Scheduler)
        requires
            capacity >= 1,
        ensures
            s.wf(),
            s.tasks@.len() == total,
            s.capacity == capacity,
            s.next == 0,
            s.running == 0,
            !s.fatal,
    {
        let mut tasks: Vec<TaskState> = Vec::new();
        let mut i: usize = 0;
        while i < total
            invariant
                i <= total,
                tasks@.len() == i,
                count_running(tasks@) == 0,
                forall|k: int| 0 <= k < i ==> (#[trigger] tasks@[k]) is Pending,
            decreases total - i,
        {
            proof {
                lemma_count_running_push(tasks@, TaskState::Pending);
            }
            tasks.push(TaskState::Pending);
            i = i + 1;
        }
        Scheduler { tasks, capacity, next: 0, running: 0, fatal: false }
    }

    /// Whether one more record may be admitted now: a slot is free, records
    /// remain, and no fatal failure has surfaced.
    pub fn can_start(&self) -> (r: bool)
        ensures
            r == (self.running < self.capacity && self.next < self.tasks@.len() && !self.fatal),
    {
        self.running < self.capacity && self.next < self.tasks.len() && !self.fatal
    }

    /// Admit the next record; it is now in flight. Returns its index.
    pub fn start_next(&mut self) -> (idx: usize)
        requires
            old(self).wf(),
            old(self).running < old(self).capacity,
            old(self).next < old(self).tasks@.len(),
            !old(self).fatal,
        ensures
            final(self).wf(),
            idx == old(self).next,
            final(self).tasks@ == old(self).tasks@.update(idx as int, TaskState::Running),
            final(self).next == old(self).next + 1,
            final(self).running == old(self).running + 1,
            final(self).capacity == old(self).capacity,
            final(self).fatal == old(self).fatal,
    {
        let idx = self.next;
        let _total = self.tasks.len();
        proof {
            lemma_count_running_update(self.tasks@, idx as int, TaskState::Running);
        }
        self.tasks.set(idx, TaskState::Running);
        self.next = idx + 1;
        self.running = self.running + 1;
        idx
    }

    /// Record that the task for record `idx` finished, well or fatally. No
    /// other record's state moves; a failure only raises the fatal flag
    /// that stops further admission.
    pub fn complete(&mut self, idx: usize, ok: bool)
        requires
            old(self).wf(),
            idx < old(self).tasks@.len(),
            old(self).tasks@[idx as int] is Running,
        ensures
            final(self).wf(),
            final(self).tasks@ == old(self).tasks@.update(
                idx as int,
                if ok {
                    TaskState::Done
                } else {
                    TaskState::Failed
                },
            ),
            forall|j: int|
                0 <= j < old(self).tasks@.len() && j != idx ==> final(self).tasks@[j] == old(
                    self,
                ).tasks@[j],
            final(self).next == old(self).next,
            final(self).running == old(self).running - 1,
            final(self).capacity == old(self).capacity,
            final(self).fatal == (old(self).fatal || !ok),
    {
        proof {
            lemma_count_running_bounds(self.tasks@);
            lemma_count_running_update(
                self.tasks@,
                idx as int,
                if ok {
                    TaskState::Done
                } else {
                    TaskState::Failed
                },
            );
        }
        self.tasks.set(
            idx,
            if ok {
                TaskState::Done
            } else {
                TaskState::Failed
            },
        );
        self.running = self.running - 1;
        if !ok {
            self.fatal = true;
        }
    }

    /// Whether the batch is over: nothing in flight, and either everything
    /// was admitted or a fatal failure stops the rest.
    pub fn is_drained(&self) -> (r: bool)
        ensures
            r == (self.running == 0 && (self.fatal || self.next == self.tasks@.len())),
    {
        self.running == 0 && (self.fatal || self.next == self.tasks.len())
    }
}

/// The state-cell transition of a completion.
pub open spec fn complete_m(tasks: Seq<TaskState>, idx: int, ok: bool) -> Seq<TaskState> {
    tasks.update(
        idx,
        if ok {
            TaskState::Done
        } else {
            TaskState::Failed
        },
    )
}

/// Law (failure isolation): one record's permanent failure moves no other
/// record's state. A record already done stays done, and a record still in
/// flight stays in flight and can still complete successfully afterwards.
pub proof fn lemma_failure_isolated(tasks: Seq<TaskState>, i: int, j: int)
    requires
        0 <= i < tasks.len(),
        0 <= j < tasks.len(),
        i != j,
        tasks[i] is Running,
        tasks[j] is Running,
    ensures
        ({
            let after_fail = complete_m(tasks, i, false);
            &&& forall|k: int| 0 <= k < tasks.len() && k != i ==> after_fail[k] == tasks[k]
            &&& after_fail[j] is Running
            &&& complete_m(after_fail, j, true)[j] is Done
            &&& forall|k: int|
                0 <= k < tasks.len() && (#[trigger] tasks[k]) is Done ==> after_fail[k] is Done
        }),
{
}

/// Law (completeness): a drained scheduler that never saw a failure has
/// admitted and finished every record of the batch — each exactly once,
/// since each holds one state cell.
pub proof fn lemma_drained_without_failure_all_done(s: Scheduler)
    requires
        s.wf(),
        s.running == 0,
        !s.fatal,
        s.next == s.tasks@.len(),
    ensures
        forall|i: int| 0 <= i < s.tasks@.len() ==> (#[trigger] s.tasks@[i]) is Done,
{
    lemma_count_running_bounds(s.tasks@);
    assert forall|i: int| 0 <= i < s.tasks@.len() implies (#[trigger] s.tasks@[i]) is Done by {
        assert(!(s.tasks@[i] is Pending));
        assert(!(s.tasks@[i] is Failed));
        assert(!(s.tasks@[i] is Running));
    }
}

} // verus!
