use rtic_core::analysis::analyze;
use rtic_core::analysis::BuildError;
use rtic_core::analysis::DispatchKind;
use rtic_core::analysis::Task;

fn hw(priority: u8, vector: u16, accesses: Vec<usize>) -> Task {
    Task { priority, dispatch: DispatchKind::HardwareBound(vector), accesses }
}

fn sw(priority: u8, level: u8, accesses: Vec<usize>) -> Task {
    Task { priority, dispatch: DispatchKind::SoftwareDispatched(level), accesses }
}

#[test]
fn ceilings_are_max_accessor_priority() {
    let tasks = vec![
        hw(1, 0, vec![0]),
        hw(2, 1, vec![0, 1]),
        hw(3, 2, vec![1]),
    ];
    let a = analyze(&tasks, 2, 3).unwrap();
    assert_eq!(a.ceilings, vec![2, 3]);
}

#[test]
fn single_accessor_ceiling_is_its_priority() {
    let tasks = vec![hw(2, 0, vec![0]), hw(3, 1, vec![])];
    let a = analyze(&tasks, 1, 3).unwrap();
    assert_eq!(a.ceilings, vec![2]);
}

#[test]
fn unshared_resource_ceiling_is_zero() {
    let tasks = vec![hw(2, 0, vec![])];
    let a = analyze(&tasks, 3, 3).unwrap();
    assert_eq!(a.ceilings, vec![0, 0, 0]);
}

#[test]
fn empty_task_set_is_accepted() {
    let a = analyze(&Vec::new(), 1, 3).unwrap();
    assert_eq!(a.ceilings, vec![0]);
}

#[test]
fn unresolvable_access_is_rejected() {
    let tasks = vec![hw(1, 0, vec![0]), hw(2, 1, vec![2])];
    let e = analyze(&tasks, 2, 3).err().unwrap();
    assert_eq!(e, BuildError::UnresolvableAccess { task: 1, resource: 2 });
}

#[test]
fn duplicate_vector_binding_is_rejected() {
    let tasks = vec![hw(1, 7, vec![]), hw(2, 3, vec![]), hw(2, 7, vec![])];
    let e = analyze(&tasks, 0, 3).err().unwrap();
    assert_eq!(e, BuildError::DuplicateVectorBinding { first: 0, second: 2, vector: 7 });
}

#[test]
fn priority_above_hardware_bound_is_rejected() {
    let tasks = vec![hw(1, 0, vec![]), hw(4, 1, vec![])];
    let e = analyze(&tasks, 0, 3).err().unwrap();
    assert_eq!(e, BuildError::PriorityExceedsBound { task: 1, priority: 4 });
}

#[test]
fn software_level_above_hardware_bound_is_rejected() {
    let tasks = vec![sw(2, 5, vec![])];
    let e = analyze(&tasks, 0, 3).err().unwrap();
    assert_eq!(e, BuildError::PriorityExceedsBound { task: 0, priority: 5 });
}

#[test]
fn unresolvable_access_is_reported_before_duplicate_binding() {
    let tasks = vec![hw(1, 7, vec![9]), hw(2, 7, vec![])];
    let e = analyze(&tasks, 1, 3).err().unwrap();
    assert_eq!(e, BuildError::UnresolvableAccess { task: 0, resource: 9 });
}

#[test]
fn lock_set_maps_accesses_to_ceilings() {
    let tasks = vec![
        hw(1, 0, vec![0, 1]),
        hw(3, 1, vec![1]),
        sw(2, 2, vec![0]),
    ];
    let a = analyze(&tasks, 2, 3).unwrap();
    assert_eq!(a.ceilings, vec![2, 3]);
    assert_eq!(a.lock_set(&tasks[0]), vec![2, 3]);
    assert_eq!(a.lock_set(&tasks[1]), vec![3]);
    assert_eq!(a.lock_set(&tasks[2]), vec![2]);
}
