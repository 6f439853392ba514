use rtic_core::dispatch::HwTaskState;
use rtic_core::dispatch::PendingSet;

#[test]
fn reactivation_while_running_is_not_lost() {
    let mut s = HwTaskState::new();
    s.activate();
    assert!(s.pending && !s.running);
    s.start();
    assert!(!s.pending && s.running);
    // the interrupt fires again while the handler runs
    s.activate();
    assert!(s.pending && s.running);
    s.finish();
    // the pending flag persisted across the handler's return
    assert!(s.pending && !s.running);
    s.start();
    assert!(!s.pending && s.running);
}

#[test]
fn pending_set_coalesces_remarking() {
    let mut p = PendingSet::new();
    p.mark(4);
    p.mark(4);
    p.mark(4);
    assert_eq!(p.queue, vec![4]);
    assert_eq!(p.pop(), Some(4));
    assert_eq!(p.pop(), None);
}

#[test]
fn pending_set_pops_in_submission_order() {
    let mut p = PendingSet::new();
    p.mark(2);
    p.mark(0);
    p.mark(2);
    p.mark(1);
    assert_eq!(p.pop(), Some(2));
    assert_eq!(p.pop(), Some(0));
    assert_eq!(p.pop(), Some(1));
    assert_eq!(p.pop(), None);
}

#[test]
fn drain_returns_fifo_order_and_empties_the_level() {
    let mut p = PendingSet::new();
    p.mark(9);
    p.mark(3);
    p.mark(7);
    assert_eq!(p.drain(), vec![9, 3, 7]);
    assert_eq!(p.queue.len(), 0);
    assert_eq!(p.pop(), None);
}
