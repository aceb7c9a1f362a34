use news_ingest::scheduler::Scheduler;
use news_ingest::scheduler::TaskState;

#[test]
fn admits_in_order_up_to_capacity() {
    let mut sched = Scheduler::new(5, 2);
    assert!(sched.can_start());
    assert_eq!(sched.start_next(), 0);
    assert_eq!(sched.start_next(), 1);
    // The pool is full: nothing more is admitted until a completion.
    assert!(!sched.can_start());
    sched.complete(0, true);
    assert!(sched.can_start());
    assert_eq!(sched.start_next(), 2);
    assert_eq!(sched.running, 2);
}

#[test]
fn drains_to_all_done_without_failures() {
    let total = 7usize;
    let mut sched = Scheduler::new(total, 3);
    while !sched.is_drained() {
        if sched.can_start() {
            sched.start_next();
        } else {
            // Complete the oldest running task.
            let idx = (0..sched.tasks.len())
                .find(|&i| sched.tasks[i] == TaskState::Running)
                .unwrap();
            sched.complete(idx, true);
        }
    }
    assert!(!sched.fatal);
    assert_eq!(sched.next, total);
    assert!(sched.tasks.iter().all(|t| *t == TaskState::Done));
}

#[test]
fn one_failure_does_not_touch_other_tasks() {
    // Two records in flight; one fails permanently. The other keeps its
    // slot and still completes successfully; only admission stops.
    let mut sched = Scheduler::new(4, 2);
    let a = sched.start_next();
    let b = sched.start_next();
    sched.complete(a, false);
    assert!(sched.fatal);
    assert!(!sched.can_start());
    assert_eq!(sched.tasks[b], TaskState::Running);
    assert!(!sched.is_drained());
    sched.complete(b, true);
    assert_eq!(sched.tasks[b], TaskState::Done);
    assert_eq!(sched.tasks[a], TaskState::Failed);
    assert!(sched.is_drained());
    // The unadmitted records were never started.
    assert_eq!(sched.tasks[2], TaskState::Pending);
    assert_eq!(sched.tasks[3], TaskState::Pending);
}

#[test]
fn completed_work_survives_a_later_failure() {
    let mut sched = Scheduler::new(3, 3);
    let a = sched.start_next();
    let b = sched.start_next();
    sched.complete(a, true);
    sched.complete(b, false);
    assert_eq!(sched.tasks[a], TaskState::Done);
    assert_eq!(sched.tasks[b], TaskState::Failed);
}
