use rtic_core::lock::MaskStrategy;
use rtic_core::lock::Resource;
use rtic_core::lock::ThresholdStack;

#[test]
fn enter_raises_to_ceiling_and_exit_restores_exactly() {
    let mut s = ThresholdStack::new(MaskStrategy::PriorityThreshold, 7);
    assert_eq!(s.current, 0);
    s.enter(3);
    assert_eq!(s.current, 3);
    s.enter(5);
    assert_eq!(s.current, 5);
    s.exit();
    assert_eq!(s.current, 3);
    s.exit();
    assert_eq!(s.current, 0);
}

#[test]
fn nested_enter_never_lowers_the_threshold() {
    let mut s = ThresholdStack::new(MaskStrategy::PriorityThreshold, 7);
    s.enter(5);
    s.enter(2);
    assert_eq!(s.current, 5);
    s.exit();
    assert_eq!(s.current, 5);
    s.exit();
    assert_eq!(s.current, 0);
}

#[test]
fn claim_updates_data_under_the_raised_threshold() {
    let mut s = ThresholdStack::new(MaskStrategy::PriorityThreshold, 7);
    let mut r = Resource::new(3, 0u32);
    s.enter(3);
    {
        let data = r.claim(&s);
        *data += 1;
        *data += 1;
    }
    s.exit();
    assert_eq!(r.data, 2);
    assert_eq!(r.ceiling, 3);
    assert_eq!(s.current, 0);
}

#[test]
fn global_mask_raises_to_hardware_maximum() {
    let mut s = ThresholdStack::new(MaskStrategy::GlobalMask, 7);
    s.enter(2);
    assert_eq!(s.current, 7);
    s.exit();
    assert_eq!(s.current, 0);
}
