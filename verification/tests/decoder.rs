use friday_rs::bluetooth::AdStructure;
use friday_rs::bluetooth::WeekdayMode;
use friday_rs::bluetooth::parse_elements;
use friday_rs::rtc::Time;

fn framed(tag: u8, inner: &[u8]) -> Vec<u8> {
    // one advertisement element: declared length, type tag, data bytes
    let mut data = vec![(inner.len() + 1) as u8, tag];
    data.extend_from_slice(inner);
    data
}

#[test]
fn element_from_short_buffer_is_none() {
    assert!(AdStructure::new(&[]).is_none());
    assert!(AdStructure::new(&[2]).is_none());
    assert!(AdStructure::new(&[2, 9]).is_none());
}

#[test]
fn element_with_zero_declared_length_is_none() {
    assert!(AdStructure::new(&[0, 9, 1]).is_none());
}

#[test]
fn element_with_declared_length_one_has_empty_data() {
    // the declared length counts the type byte, so length 1 leaves no data
    let ad = AdStructure::new(&[1, 9, 1]).unwrap();
    assert_eq!(ad.parse2time(WeekdayMode::MondayZero), None);
}

#[test]
fn element_with_declared_length_past_end_is_none() {
    assert!(AdStructure::new(&[9, 8, 70, 82]).is_none());
}

#[test]
fn element_carves_declared_range() {
    let data = [3, 8, 70, 82, 99];
    let ad = AdStructure::new(&data).unwrap();
    // the element covers data[2..4]; the trailing byte is outside it
    assert_eq!(
        ad.parse2time(WeekdayMode::MondayZero),
        Some(Time { year: 0, month: 1, day: 1, hour: 0, minute: 0, second: 0, week: 3 })
    );
}

#[test]
fn timestamp_2020_new_year() {
    // "F" + "5E0BE100" + "R" with tag 0x09: 0x5E0BE100 seconds after the
    // epoch is 2020-01-01T00:00:00 UTC, a Wednesday
    let data = framed(0x09, b"F5E0BE100R");
    let ad = AdStructure::new(&data).unwrap();
    let time = ad.parse2time(WeekdayMode::MondayZero).unwrap();
    assert_eq!(
        time,
        Time { year: 50, month: 1, day: 1, hour: 0, minute: 0, second: 0, week: 2 }
    );
}

#[test]
fn timestamp_tag_08_also_decodes() {
    let data = framed(0x08, b"F5E0BE100R");
    let ad = AdStructure::new(&data).unwrap();
    assert!(ad.parse2time(WeekdayMode::MondayZero).is_some());
}

#[test]
fn timestamp_lowercase_hex_decodes() {
    let data = framed(0x09, b"F5e0be100R");
    let ad = AdStructure::new(&data).unwrap();
    let time = ad.parse2time(WeekdayMode::MondayZero).unwrap();
    assert_eq!(time.year, 50);
    assert_eq!(time.month, 1);
    assert_eq!(time.day, 1);
}

#[test]
fn sunday_zero_convention_shifts_weekday() {
    let data = framed(0x09, b"F5E0BE100R");
    let ad = AdStructure::new(&data).unwrap();
    // Wednesday: 2 when Monday is day 0, 3 when Sunday is day 0
    let time = ad.parse2time(WeekdayMode::SundayZero).unwrap();
    assert_eq!(time.week, 3);
}

#[test]
fn non_hex_interior_byte_counts_as_zero() {
    // "F0Z1R" does not fail: 'Z' contributes digit value 0, so the count
    // is 0x001 = 1 second after the epoch
    let data = framed(0x09, b"F0Z1R");
    let ad = AdStructure::new(&data).unwrap();
    let time = ad.parse2time(WeekdayMode::MondayZero).unwrap();
    assert_eq!(
        time,
        Time { year: 0, month: 1, day: 1, hour: 0, minute: 0, second: 1, week: 3 }
    );
}

#[test]
fn overflowing_accumulation_clamps_to_zero() {
    // 8 * 16^7 overflows the 32-bit signed range: the step clamps the
    // running value to 0, so the count ends at 0, the epoch itself
    let data = framed(0x09, b"F80000000R");
    let ad = AdStructure::new(&data).unwrap();
    let time = ad.parse2time(WeekdayMode::MondayZero).unwrap();
    assert_eq!(
        time,
        Time { year: 0, month: 1, day: 1, hour: 0, minute: 0, second: 0, week: 3 }
    );
}

#[test]
fn empty_hex_interior_decodes_to_epoch() {
    let data = framed(0x09, b"FR");
    let ad = AdStructure::new(&data).unwrap();
    let time = ad.parse2time(WeekdayMode::MondayZero).unwrap();
    assert_eq!(time.year, 0);
    assert_eq!(time.second, 0);
}

#[test]
fn wrong_tag_is_not_a_timestamp() {
    let data = framed(0x0a, b"F5E0BE100R");
    let ad = AdStructure::new(&data).unwrap();
    assert_eq!(ad.parse2time(WeekdayMode::MondayZero), None);
}

#[test]
fn missing_lead_or_tail_is_not_a_timestamp() {
    let no_lead = framed(0x09, b"X5E0BE100R");
    assert_eq!(
        AdStructure::new(&no_lead).unwrap().parse2time(WeekdayMode::MondayZero),
        None
    );
    let no_tail = framed(0x09, b"F5E0BE100X");
    assert_eq!(
        AdStructure::new(&no_tail).unwrap().parse2time(WeekdayMode::MondayZero),
        None
    );
}

#[test]
fn parse_elements_stops_at_overrunning_length() {
    // the element at offset 4 declares 200 bytes that the buffer does not
    // hold: nothing is emitted from there on, and nothing is read past the
    // end
    let payload = [3u8, 0x01, 0x06, 0x00, 200, 0x09, 70];
    let elements = parse_elements(&payload);
    assert_eq!(elements.len(), 1);
}

#[test]
fn parse_elements_walks_back_to_back_elements() {
    let mut payload = vec![2u8, 0x01, 0x06];
    payload.extend_from_slice(&framed(0x09, b"F0R"));
    payload.extend_from_slice(&[3, 0xff, 1, 2]);
    let elements = parse_elements(&payload);
    assert_eq!(elements.len(), 3);
    assert_eq!(elements[0].parse2time(WeekdayMode::MondayZero), None);
    assert!(elements[1].parse2time(WeekdayMode::MondayZero).is_some());
    assert_eq!(elements[2].parse2time(WeekdayMode::MondayZero), None);
}

#[test]
fn parse_elements_of_empty_payload_is_empty() {
    let elements = parse_elements(&[]);
    assert_eq!(elements.len(), 0);
}

#[test]
fn parse_elements_steps_over_tiny_blocks() {
    // a zero declared length advances by one byte without emitting
    let payload = [0u8, 0, 2, 0x01, 0x06];
    let elements = parse_elements(&payload);
    assert_eq!(elements.len(), 1);
}
