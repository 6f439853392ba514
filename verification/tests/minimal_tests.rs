use rtic_core::minimal::init;
use rtic_core::minimal::nmi;
use rtic_core::timer::InterruptToken;
use rtic_core::timer::TimerQueue;

struct TimerToken;

impl InterruptToken<TimerQueue> for TimerToken {}

#[test]
fn init_hands_out_the_empty_state_and_the_handler_returns() {
    let (_shared, _local) = init();
    nmi();
    let _token = TimerToken;
}
