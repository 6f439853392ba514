use rtic_core::timer::wrap_add;
use rtic_core::timer::wrap_dist;
use rtic_core::timer::CancelError;
use rtic_core::timer::TimerQueue;

#[test]
fn wrap_arithmetic_round_trips() {
    assert_eq!(wrap_add(10, 5), 15);
    assert_eq!(wrap_add(u32::MAX, 1), 0);
    assert_eq!(wrap_add(u32::MAX - 3, 10), 6);
    assert_eq!(wrap_dist(15, 10), 5);
    assert_eq!(wrap_dist(6, u32::MAX - 3), 10);
    assert_eq!(wrap_dist(0, u32::MAX), 1);
}

#[test]
fn service_pops_in_deadline_order() {
    let mut q = TimerQueue::new(0);
    q.schedule(30, 3);
    q.schedule(10, 1);
    q.schedule(20, 2);
    let fired = q.service_at(100);
    let targets: Vec<usize> = fired.iter().map(|e| e.target).collect();
    assert_eq!(targets, vec![1, 2, 3]);
    let deadlines: Vec<u32> = fired.iter().map(|e| e.deadline).collect();
    assert_eq!(deadlines, vec![10, 20, 30]);
}

#[test]
fn equal_deadlines_fire_in_insertion_order() {
    let mut q = TimerQueue::new(0);
    q.schedule(10, 5);
    q.schedule(10, 6);
    q.schedule(10, 7);
    let fired = q.service_at(10);
    let targets: Vec<usize> = fired.iter().map(|e| e.target).collect();
    assert_eq!(targets, vec![5, 6, 7]);
}

#[test]
fn service_pops_only_entries_due() {
    let mut q = TimerQueue::new(0);
    q.schedule(5, 1);
    q.schedule(200, 2);
    let fired = q.service_at(10);
    assert_eq!(fired.len(), 1);
    assert_eq!(fired[0].target, 1);
    assert_eq!(q.next_deadline(), Some(200));
    let fired = q.service_at(200);
    assert_eq!(fired.len(), 1);
    assert_eq!(fired[0].target, 2);
    assert_eq!(q.next_deadline(), None);
}

#[test]
fn schedule_then_immediate_cancel_succeeds() {
    let mut q = TimerQueue::new(0);
    let h = q.schedule(50, 1);
    assert_eq!(q.cancel(h), Ok(()));
    // the cancelled entry never fires
    assert_eq!(q.service_at(100).len(), 0);
}

#[test]
fn cancel_after_the_deadline_passed_reports_failure() {
    let mut q = TimerQueue::new(0);
    let h = q.schedule(50, 1);
    let fired = q.service_at(60);
    assert_eq!(fired.len(), 1);
    assert_eq!(q.cancel(h), Err(CancelError::AlreadyFired));
}

#[test]
fn cancel_of_unknown_handle_reports_failure() {
    let mut q = TimerQueue::new(0);
    q.schedule(50, 1);
    assert_eq!(q.cancel(999), Err(CancelError::AlreadyFired));
}

#[test]
fn deadline_across_wraparound_fires_at_the_right_relative_time() {
    let start = u32::MAX - 50;
    let mut q = TimerQueue::new(start);
    let deadline = wrap_add(start, 100);
    assert_eq!(deadline, 49);  // past the wraparound boundary
    q.schedule(deadline, 1);
    let mut fired_at: Option<u32> = None;
    for step in 1..=20u32 {
        let t = wrap_add(start, step * 10);
        let fired = q.service_at(t);
        if !fired.is_empty() {
            assert_eq!(fired.len(), 1);
            assert!(fired_at.is_none());
            fired_at = Some(step * 10);
        }
    }
    // fired exactly once, at elapsed 100, not before and not after
    assert_eq!(fired_at, Some(100));
}

#[test]
fn rearm_deadline_is_the_earliest_remaining() {
    let mut q = TimerQueue::new(0);
    assert_eq!(q.next_deadline(), None);
    q.schedule(40, 1);
    q.schedule(20, 2);
    assert_eq!(q.next_deadline(), Some(20));
}
