use friday_rs::bluetooth::SyncOutcome;
use friday_rs::bluetooth::WeekdayMode;
use friday_rs::bluetooth::handle_discovered_device;
use friday_rs::pins::BusPins;
use friday_rs::pins::LineEvent;
use friday_rs::pins::SimPins;
use friday_rs::rtc::PCF8563;
use friday_rs::rtc::Time;
use friday_rs::softwire::I2cError;
use friday_rs::softwire::SoftwareI2C;
use friday_rs::softwire::WriteReg;

// Expected line-event traces, built the way the wire protocol documents
// them: they are the oracle the recorded logs are held against.

fn ev_start() -> Vec<LineEvent> {
    vec![
        LineEvent::Scl(true),
        LineEvent::Sda(true),
        LineEvent::Wait,
        LineEvent::Sda(false),
        LineEvent::Wait,
        LineEvent::Scl(false),
        LineEvent::Wait,
    ]
}

fn ev_stop() -> Vec<LineEvent> {
    vec![
        LineEvent::Sda(false),
        LineEvent::Scl(true),
        LineEvent::Wait,
        LineEvent::Sda(true),
        LineEvent::Wait,
    ]
}

fn ev_bit_out(bit: bool) -> Vec<LineEvent> {
    vec![
        LineEvent::Sda(bit),
        LineEvent::Wait,
        LineEvent::Scl(true),
        LineEvent::Wait,
        LineEvent::Scl(false),
        LineEvent::Wait,
    ]
}

fn ev_bit_in(bit: bool) -> Vec<LineEvent> {
    vec![
        LineEvent::Release,
        LineEvent::Scl(false),
        LineEvent::Wait,
        LineEvent::Scl(true),
        LineEvent::Wait,
        LineEvent::Sample(bit),
        LineEvent::Wait,
        LineEvent::Scl(false),
        LineEvent::Wait,
    ]
}

// one byte clocked out, most significant bit first, then the
// acknowledgement slot with the level the peripheral presented
fn ev_byte_out(byte: u8, raw_ack: bool) -> Vec<LineEvent> {
    let mut events = Vec::new();
    for i in 0..8 {
        events.extend(ev_bit_out((byte >> (7 - i)) & 1 == 1));
    }
    events.extend(ev_bit_in(raw_ack));
    events
}

// a whole write transaction in which every byte is acknowledged
fn ev_write_txn_acked(addr7: u8, bytes: &[u8]) -> Vec<LineEvent> {
    let mut events = ev_start();
    events.extend(ev_byte_out(addr7 << 1, false));
    for &b in bytes {
        events.extend(ev_byte_out(b, false));
    }
    events.extend(ev_stop());
    events
}

// the sampling levels that make a read transaction return `byte`
fn feed_bits(byte: u8) -> Vec<bool> {
    (0..8).map(|i| (byte >> (7 - i)) & 1 == 1).collect()
}

fn acks(n: usize) -> Vec<bool> {
    vec![false; n]
}

#[test]
fn write_clocks_all_bytes_when_acknowledged() {
    let pins = SimPins::new(acks(3));
    let mut bus = SoftwareI2C::new(pins);
    assert_eq!(bus.write(0x51, &[0x02, 0x55]), Ok(()));
    let pins = bus.into_pins();
    assert_eq!(pins.recorded().clone(), ev_write_txn_acked(0x51, &[0x02, 0x55]));
    assert_eq!(pins.feed_len(), 0);
}

#[test]
fn write_aborts_on_unacknowledged_second_byte_and_stops() {
    // the peripheral acknowledges the address and the first byte, not the
    // second: the composite call fails with Nack, and the stop condition
    // is still issued so the bus is left idle
    let pins = SimPins::new(vec![false, false, true]);
    let mut bus = SoftwareI2C::new(pins);
    assert_eq!(bus.write(0x51, &[0x0a, 0x3c]), Err(I2cError::Nack));
    let pins = bus.into_pins();
    let mut expected = ev_start();
    expected.extend(ev_byte_out(0x51 << 1, false));
    expected.extend(ev_byte_out(0x0a, false));
    expected.extend(ev_byte_out(0x3c, true));
    expected.extend(ev_stop());
    let recorded = pins.recorded().clone();
    assert_eq!(recorded, expected);
    let tail = &recorded[recorded.len() - 5..];
    assert_eq!(tail.to_vec(), ev_stop());
}

#[test]
fn write_aborts_on_unacknowledged_address() {
    let pins = SimPins::new(vec![true, false, false]);
    let mut bus = SoftwareI2C::new(pins);
    assert_eq!(bus.write(0x51, &[0x0a, 0x3c]), Err(I2cError::Nack));
    let pins = bus.into_pins();
    let mut expected = ev_start();
    expected.extend(ev_byte_out(0x51 << 1, true));
    expected.extend(ev_stop());
    assert_eq!(pins.recorded().clone(), expected);
}

#[test]
fn read_assembles_bytes_from_sampled_levels() {
    // address acknowledged, then two bytes presented bit by bit
    let mut feed = vec![false];
    feed.extend(feed_bits(0xa5));
    feed.extend(feed_bits(0x3c));
    let pins = SimPins::new(feed);
    let mut bus = SoftwareI2C::new(pins);
    let mut buffer = vec![0u8; 2];
    assert_eq!(bus.read(0x51, &mut buffer), Ok(()));
    assert_eq!(buffer, vec![0xa5, 0x3c]);
}

#[test]
fn read_fails_when_address_unacknowledged() {
    let pins = SimPins::new(vec![true]);
    let mut bus = SoftwareI2C::new(pins);
    let mut buffer = vec![7u8; 2];
    assert_eq!(bus.read(0x51, &mut buffer), Err(I2cError::Nack));
    assert_eq!(buffer, vec![7u8, 7u8]);
}

#[test]
fn set_time_writes_one_bcd_burst() {
    let pins = SimPins::new(acks(9));
    let mut rtc = PCF8563::new(SoftwareI2C::new(pins));
    let time = Time { year: 54, month: 3, day: 5, hour: 15, minute: 30, second: 45, week: 2 };
    assert_eq!(rtc.set_time(time), Ok(()));
    let pins = rtc.into_i2c().into_pins();
    // register 0x02, then second, minute, hour, day, weekday, month, year
    // in binary-coded decimal
    let expected = ev_write_txn_acked(
        0x51,
        &[0x02, 0x45, 0x30, 0x15, 0x05, 0x02, 0x03, 0x54],
    );
    assert_eq!(pins.recorded().clone(), expected);
}

#[test]
fn now_reads_and_masks_the_time_block() {
    // write of the register number: 2 acks; read address: 1 ack; then the
    // 7 register bytes, with flag bits set in the top of the seconds and
    // hours registers that the decode must mask away
    let mut feed = acks(3);
    for b in [0xc5u8, 0x30, 0x95, 0x05, 0xfa, 0x83, 0x54] {
        feed.extend(feed_bits(b));
    }
    let pins = SimPins::new(feed);
    let mut rtc = PCF8563::new(SoftwareI2C::new(pins));
    let time = rtc.now().unwrap();
    assert_eq!(
        time,
        Time { year: 54, month: 3, day: 5, hour: 15, minute: 30, second: 45, week: 2 }
    );
}

#[test]
fn now_propagates_a_nack() {
    let pins = SimPins::new(vec![false, true, false]);
    let mut rtc = PCF8563::new(SoftwareI2C::new(pins));
    assert_eq!(rtc.now(), Err(I2cError::Nack));
}

#[test]
fn alarm_set_check_clear_against_echoing_chip() {
    // a simulated chip that stores the alarm registers, honors the control
    // write by raising the alarm flag once the alarm interrupt is enabled,
    // and echoes the control register on every read; the feeds below are
    // what such a chip drives on the line, register state carried from
    // call to call
    // set_alarm writes the 4 alarm registers and then 0x06 (alarm
    // interrupt enable) over the control register; the chip acknowledges
    // all 9 bytes and, with the interrupt enabled, raises the alarm flag
    let pins = SimPins::new(acks(9));
    let mut rtc = PCF8563::new(SoftwareI2C::new(pins));
    assert_eq!(rtc.set_alarm(0, 0, 7, 30), Ok(()));
    let mut control: u8 = 0x06 | 0x08;

    // check_alarm reads the control register back from the chip
    let mut feed = acks(3);
    feed.extend(feed_bits(control));
    let pins = SimPins::new(feed);
    let mut rtc = PCF8563::new(SoftwareI2C::new(pins));
    assert_eq!(rtc.check_alarm(), Ok(true));

    // clear_alarm reads the control register and writes it back with the
    // alarm flag subtracted off; the chip stores the new value
    let mut feed = acks(3);
    feed.extend(feed_bits(control));
    feed.extend(acks(3));
    let pins = SimPins::new(feed);
    let mut rtc = PCF8563::new(SoftwareI2C::new(pins));
    assert_eq!(rtc.clear_alarm(), Ok(()));
    control -= 0x08;

    // the flag is gone now
    let mut feed = acks(3);
    feed.extend(feed_bits(control));
    let pins = SimPins::new(feed);
    let mut rtc = PCF8563::new(SoftwareI2C::new(pins));
    assert_eq!(rtc.check_alarm(), Ok(false));
}

#[test]
fn set_alarm_always_disables_day_and_weekday_matching() {
    let pins = SimPins::new(acks(9));
    let mut rtc = PCF8563::new(SoftwareI2C::new(pins));
    assert_eq!(rtc.set_alarm(3, 14, 7, 30), Ok(()));
    let pins = rtc.into_i2c().into_pins();
    let mut expected = ev_write_txn_acked(0x51, &[0x09, 0x30, 0x07, 0x14 | 0x80, 0x03 | 0x80]);
    expected.extend(ev_write_txn_acked(0x51, &[0x01, 0x06]));
    assert_eq!(pins.recorded().clone(), expected);
}

#[test]
fn is_running_and_lost_power_read_single_flags() {
    let mut feed = acks(3);
    feed.extend(feed_bits(0x20));
    let pins = SimPins::new(feed);
    let mut rtc = PCF8563::new(SoftwareI2C::new(pins));
    assert_eq!(rtc.is_running(), Ok(true));

    let mut feed = acks(3);
    feed.extend(feed_bits(0x80));
    let pins = SimPins::new(feed);
    let mut rtc = PCF8563::new(SoftwareI2C::new(pins));
    assert_eq!(rtc.lost_power(), Ok(true));

    let mut feed = acks(3);
    feed.extend(feed_bits(0x00));
    let pins = SimPins::new(feed);
    let mut rtc = PCF8563::new(SoftwareI2C::new(pins));
    assert_eq!(rtc.lost_power(), Ok(false));
}

#[test]
fn start_fails_with_bus_error_when_flag_clear() {
    // the oscillator-stopped flag is clear in what the chip answers
    let mut feed = acks(3);
    feed.extend(feed_bits(0x00));
    let pins = SimPins::new(feed);
    let mut rtc = PCF8563::new(SoftwareI2C::new(pins));
    assert_eq!(rtc.start(), Err(I2cError::Bus));
}

#[test]
fn one_timestamp_among_noise_syncs_once_and_asks_for_reset() {
    // a payload of an unrelated element, the one well-formed timestamp
    // element, and another unrelated element: exactly one time write goes
    // out on the bus, with the decoded value, and the outcome asks for
    // exactly one reset
    let mut payload = vec![2u8, 0x01, 0x06];
    payload.push(11);
    payload.push(0x09);
    payload.extend_from_slice(b"F5E0BE100R");
    payload.extend_from_slice(&[3, 0xff, 1, 2]);

    let pins = SimPins::new(acks(9));
    let mut rtc = PCF8563::new(SoftwareI2C::new(pins));
    let outcome = handle_discovered_device(&mut rtc, &payload, WeekdayMode::MondayZero);
    assert_eq!(outcome, Ok(SyncOutcome::Synced));

    // 2020-01-01T00:00:00 UTC, a Wednesday: year offset 50, weekday 2
    let pins = rtc.into_i2c().into_pins();
    let expected = ev_write_txn_acked(
        0x51,
        &[0x02, 0x00, 0x00, 0x00, 0x01, 0x02, 0x01, 0x50],
    );
    assert_eq!(pins.recorded().clone(), expected);
}

#[test]
fn payload_without_timestamp_changes_nothing() {
    let payload = [2u8, 0x01, 0x06, 3, 0xff, 1, 2];
    let pins = SimPins::new(acks(9));
    let mut rtc = PCF8563::new(SoftwareI2C::new(pins));
    let outcome = handle_discovered_device(&mut rtc, &payload, WeekdayMode::MondayZero);
    assert_eq!(outcome, Ok(SyncOutcome::NoTimestamp));
    let pins = rtc.into_i2c().into_pins();
    assert_eq!(pins.recorded().len(), 0);
    assert_eq!(pins.feed_len(), 9);
}

#[test]
fn sync_propagates_a_nack_from_the_time_write() {
    let mut payload = vec![11u8, 0x09];
    payload.extend_from_slice(b"F5E0BE100R");
    let pins = SimPins::new(vec![false, false, true, false, false, false, false, false, false]);
    let mut rtc = PCF8563::new(SoftwareI2C::new(pins));
    let outcome = handle_discovered_device(&mut rtc, &payload, WeekdayMode::MondayZero);
    assert_eq!(outcome, Err(I2cError::Nack));
}

#[test]
fn write_reg_trait_guards_bad_inputs() {
    // an address outside the 7-bit range is refused before touching the bus
    let pins = SimPins::new(acks(3));
    let mut bus = SoftwareI2C::new(pins);
    assert_eq!(WriteReg::write_reg(&mut bus, 0x80, 0x02, &[0x55]), Err(I2cError::Bus));
    assert_eq!(bus.into_pins().recorded().len(), 0);

    // a response feed too short for the transaction is refused as well
    let pins = SimPins::new(acks(2));
    let mut bus = SoftwareI2C::new(pins);
    assert_eq!(WriteReg::write_reg(&mut bus, 0x51, 0x02, &[0x55]), Err(I2cError::Bus));

    // and a well-formed call clocks the register write out
    let pins = SimPins::new(acks(3));
    let mut bus = SoftwareI2C::new(pins);
    assert_eq!(WriteReg::write_reg(&mut bus, 0x51, 0x02, &[0x55]), Ok(()));
    assert_eq!(bus.into_pins().recorded().clone(), ev_write_txn_acked(0x51, &[0x02, 0x55]));
}

#[test]
fn start_clears_the_flag_it_read() {
    // the chip answers the control register with the oscillator-stopped
    // flag set; the cleared value goes back to that register in one
    // chip-addressed write
    let mut feed = acks(3);
    feed.extend(feed_bits(0x20));
    feed.extend(acks(3));
    let pins = SimPins::new(feed);
    let mut rtc = PCF8563::new(SoftwareI2C::new(pins));
    assert_eq!(rtc.start(), Ok(()));
    let pins = rtc.into_i2c().into_pins();
    let recorded = pins.recorded().clone();
    let tail = ev_write_txn_acked(0x51, &[0x00, 0x00]);
    assert_eq!(recorded[recorded.len() - tail.len()..].to_vec(), tail);
}

#[test]
fn stop_sets_the_flag_it_read() {
    let mut feed = acks(3);
    feed.extend(feed_bits(0x20));
    feed.extend(acks(3));
    let pins = SimPins::new(feed);
    let mut rtc = PCF8563::new(SoftwareI2C::new(pins));
    assert_eq!(rtc.stop(), Ok(()));
    let pins = rtc.into_i2c().into_pins();
    let recorded = pins.recorded().clone();
    let tail = ev_write_txn_acked(0x51, &[0x00, 0x20]);
    assert_eq!(recorded[recorded.len() - tail.len()..].to_vec(), tail);
}
