use rtic_core::analysis::BuildError;
use rtic_core::timer::wrap_add;
use rtic_core::analysis::DispatchKind;
use rtic_core::analysis::Task;
use rtic_core::system::Event;
use rtic_core::system::System;

fn hw(priority: u8, vector: u16, accesses: Vec<usize>) -> Task {
    Task { priority, dispatch: DispatchKind::HardwareBound(vector), accesses }
}

fn sw(priority: u8, level: u8, accesses: Vec<usize>) -> Task {
    Task { priority, dispatch: DispatchKind::SoftwareDispatched(level), accesses }
}

#[test]
fn preemption_is_impossible_inside_a_critical_section() {
    // Scenario: tasks 0 (priority 1) and 1 (priority 2) share resource 0.
    let tasks = vec![hw(1, 0, vec![0]), hw(2, 1, vec![0])];
    let mut sys = System::new(tasks, 1, 3, 0).unwrap();
    assert_eq!(sys.ceilings, vec![2]);

    sys.pend(0);
    assert_eq!(sys.take_interrupt(), Some(0));
    // task 0 enters its critical section: the threshold rises to the ceiling
    sys.lock(0);
    assert_eq!(sys.threshold, 2);
    // task 1's interrupt is asserted during the critical section...
    sys.pend(1);
    // ...but the controller cannot take it: task 1 is masked by the ceiling
    assert_eq!(sys.take_interrupt(), None);
    // once the critical section ends, task 1 preempts task 0 at once
    sys.unlock();
    assert_eq!(sys.take_interrupt(), Some(1));
    sys.finish();  // task 1
    sys.finish();  // task 0

    // task 0's critical section completed before task 1's body ran
    assert_eq!(
        sys.log,
        vec![
            Event::Started(0),
            Event::EnteredCritical(0, 0),
            Event::ExitedCritical(0, 0),
            Event::Started(1),
            Event::Finished(1),
            Event::Finished(0),
        ],
    );
}

#[test]
fn unrelated_higher_priority_task_still_preempts_a_lock_holder() {
    // Task 2 never touches resource 0, and its priority 3 is above the
    // ceiling 2: it alone may preempt the critical section.
    let tasks = vec![hw(1, 0, vec![0]), hw(2, 1, vec![0]), hw(3, 2, vec![])];
    let mut sys = System::new(tasks, 1, 3, 0).unwrap();
    sys.pend(0);
    assert_eq!(sys.take_interrupt(), Some(0));
    sys.lock(0);
    sys.pend(1);
    sys.pend(2);
    assert_eq!(sys.take_interrupt(), Some(2));
    sys.finish();  // task 2
    assert_eq!(sys.take_interrupt(), None);  // task 1 still masked
    sys.unlock();
    assert_eq!(sys.take_interrupt(), Some(1));
}

#[test]
fn software_tasks_of_one_level_run_in_fifo_order() {
    // Scenario: tasks a = 0, b = 1, c = 2 at one priority level, activated
    // in the order c, a, b.
    let tasks = vec![sw(1, 1, vec![]), sw(1, 1, vec![]), sw(1, 1, vec![])];
    let mut sys = System::new(tasks, 0, 3, 0).unwrap();
    sys.pend(2);
    sys.pend(0);
    sys.pend(1);
    let order = sys.run_level(1);
    assert_eq!(order, vec![2, 0, 1]);
    assert_eq!(
        sys.log,
        vec![
            Event::Started(2),
            Event::Finished(2),
            Event::Started(0),
            Event::Finished(0),
            Event::Started(1),
            Event::Finished(1),
        ],
    );
}

#[test]
fn timer_activation_fires_exactly_once_at_the_deadline() {
    // Scenario: schedule for now() + 100, advance the clock in steps of 10.
    let tasks = vec![hw(1, 0, vec![])];
    let mut sys = System::new(tasks, 0, 3, 0).unwrap();
    sys.schedule(100, 0);
    let mut activations = 0;
    for step in 1..=15u32 {
        let fired = sys.tick(step * 10);
        if !fired.is_empty() {
            assert_eq!(fired, vec![0]);
            assert_eq!(step * 10, 100);  // at step 100, not before
            activations += 1;
        }
    }
    assert_eq!(activations, 1);
    // the activation reached the dispatcher
    assert_eq!(sys.take_interrupt(), Some(0));
}

#[test]
fn pending_reactivation_restarts_a_hardware_task() {
    let tasks = vec![hw(1, 0, vec![])];
    let mut sys = System::new(tasks, 0, 3, 0).unwrap();
    sys.pend(0);
    assert_eq!(sys.take_interrupt(), Some(0));
    // the vector fires again while the handler runs: recorded, not taken
    sys.pend(0);
    assert_eq!(sys.take_interrupt(), None);  // non-reentrant while running
    sys.finish();
    // the recorded activation persists and is taken after the return
    assert_eq!(sys.take_interrupt(), Some(0));
}

#[test]
fn interrupt_ties_resolve_by_controller_order() {
    let tasks = vec![hw(2, 0, vec![]), hw(2, 1, vec![]), hw(1, 2, vec![])];
    let mut sys = System::new(tasks, 0, 3, 0).unwrap();
    sys.pend(1);
    sys.pend(0);
    sys.pend(2);
    // equal priorities: the build-time controller order (lower identity) wins
    assert_eq!(sys.take_interrupt(), Some(0));
    // equal priority does not preempt a running task
    assert_eq!(sys.take_interrupt(), None);
    sys.finish();
    assert_eq!(sys.take_interrupt(), Some(1));
}

#[test]
fn system_schedule_then_cancel_succeeds_and_late_cancel_fails() {
    let tasks = vec![hw(1, 0, vec![])];
    let mut sys = System::new(tasks, 0, 3, 0).unwrap();
    let h1 = sys.schedule(50, 0);
    assert_eq!(sys.cancel(h1), Ok(()));
    let h2 = sys.schedule(60, 0);
    assert_eq!(sys.tick(70), vec![0]);
    assert!(sys.cancel(h2).is_err());
}

#[test]
fn timer_activation_survives_counter_wraparound() {
    let start = u32::MAX - 5;
    let tasks = vec![hw(1, 0, vec![])];
    let mut sys = System::new(tasks, 0, 3, start).unwrap();
    sys.schedule(wrap_add(start, 100), 0);
    assert_eq!(sys.tick(wrap_add(start, 99)), Vec::<usize>::new());
    assert_eq!(sys.tick(wrap_add(start, 100)), vec![0]);
}

#[test]
fn system_construction_rejects_what_the_analysis_rejects() {
    let tasks = vec![hw(1, 4, vec![]), hw(2, 4, vec![])];
    let e = System::new(tasks, 0, 3, 0).err().unwrap();
    assert_eq!(e, BuildError::DuplicateVectorBinding { first: 0, second: 1, vector: 4 });
}
