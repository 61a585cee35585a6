use friday_rs::bluetooth::EVENT_QUEUE_CAPACITY;
use friday_rs::bluetooth::EventQueue;
use friday_rs::bluetooth::SupervisorAction;
use friday_rs::bluetooth::debounce_confirm;
use friday_rs::bluetooth::supervisor_step;
use friday_rs::config::PAIR_MODE_TIME_OUT;
use friday_rs::pins::SimPins;
use friday_rs::rtc::ConfigurationError;
use friday_rs::rtc::PCF8563;
use friday_rs::rtc::RtcSlot;
use friday_rs::rtc::bcd_to_bin;
use friday_rs::rtc::bin_to_bcd;
use friday_rs::rtc::dec_to_bcd;
use friday_rs::softwire::SoftwareI2C;

#[test]
fn bcd_of_59_and_back() {
    assert_eq!(bin_to_bcd(59), 0x59);
    assert_eq!(bcd_to_bin(0x59), 59);
    assert_eq!(dec_to_bcd(59), 0x59);
}

#[test]
fn bcd_round_trips_every_valid_byte() {
    for value in 0u16..=255 {
        let byte = value as u8;
        if byte & 0x0f <= 9 && byte >> 4 <= 9 {
            assert_eq!(bin_to_bcd(bcd_to_bin(byte)), byte);
        }
    }
    for value in 0u8..=99 {
        assert_eq!(bcd_to_bin(bin_to_bcd(value)), value);
    }
}

#[test]
fn queue_drops_on_full_and_keeps_order() {
    let mut queue = EventQueue::new(2);
    assert!(queue.try_send(true));
    assert!(queue.try_send(false));
    // the queue is full: the third wake-up is dropped, not blocked on
    assert!(!queue.try_send(true));
    assert_eq!(queue.len(), 2);
    assert_eq!(queue.try_recv(), Some(true));
    assert_eq!(queue.try_recv(), Some(false));
    assert_eq!(queue.try_recv(), None);
}

#[test]
fn queue_default_capacity_is_ten() {
    let mut queue = EventQueue::new(EVENT_QUEUE_CAPACITY);
    for _ in 0..10 {
        assert!(queue.try_send(true));
    }
    assert!(!queue.try_send(true));
}

#[test]
fn supervisor_counts_elapsed_seconds_with_wraparound() {
    assert_eq!(supervisor_step(10, 15, false).0, 5);
    // the clock's second field wrapped at the minute
    assert_eq!(supervisor_step(58, 3, false).0, 5);
    assert_eq!(supervisor_step(0, 0, false).0, 0);
}

#[test]
fn supervisor_resets_after_timeout() {
    let (delta, action) = supervisor_step(0, PAIR_MODE_TIME_OUT + 1, false);
    assert_eq!(delta, PAIR_MODE_TIME_OUT + 1);
    assert_eq!(action, SupervisorAction::Reset);
}

#[test]
fn supervisor_waits_inside_timeout() {
    assert_eq!(supervisor_step(0, 5, true).1, SupervisorAction::Continue);
    assert_eq!(supervisor_step(0, 10, false).1, SupervisorAction::Continue);
}

#[test]
fn supervisor_probes_held_button_after_grace_period() {
    assert_eq!(supervisor_step(0, 6, true).1, SupervisorAction::DebounceProbe);
}

#[test]
fn debounce_resets_only_a_still_held_button() {
    assert_eq!(debounce_confirm(true), SupervisorAction::Reset);
    assert_eq!(debounce_confirm(false), SupervisorAction::Continue);
}

#[test]
fn rtc_slot_refuses_a_second_bind() {
    let mut slot: RtcSlot<SimPins> = RtcSlot::new();
    let first = PCF8563::new(SoftwareI2C::new(SimPins::new(vec![])));
    assert_eq!(slot.set_default_rtc(first), Ok(()));
    let second = PCF8563::new(SoftwareI2C::new(SimPins::new(vec![])));
    assert_eq!(slot.set_default_rtc(second), Err(ConfigurationError));
    // the first binding is still there
    let _rtc = slot.take();
}
