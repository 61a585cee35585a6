//! Register protocol client for the PCF8563 real-time-clock chip.
//!
//! [`PCF8563`] binds one bus engine and the chip's fixed 7-bit address, and
//! speaks the chip's register protocol over it: a 7-byte burst for the
//! calendar time, a 4-byte burst for the alarm registers, and single-byte
//! status reads. On the wire every calendar field is binary-coded decimal;
//! in memory all fields of [`Time`] are plain binary.
//!
//! Oddities of the protocol client, kept as they are: the seconds and minutes
//! registers carry a flag in their top bit that the decode masks away;
//! [`PCF8563::set_alarm`] always sets the match-disable bit of the day and
//! weekday alarm registers and then blindly overwrites the second control
//! register; [`PCF8563::clear_alarm`] clears the alarm flag by arithmetic
//! subtraction, so its contract demands that the flag is set in what the chip
//! answers.

use vstd::prelude::*;

use crate::pins::BusPins;
use crate::pins::LineEvent;
use crate::softwire::I2cError;
use crate::softwire::SoftwareI2C;
use crate::softwire::all_acked;
use crate::softwire::clocked_count;
use crate::softwire::read_bytes_spec;
use crate::softwire::read_txn_events;
use crate::softwire::write_txn_events;

verus! {

/// Fixed 7-bit bus address of the chip.
pub const PCF8563_ADDR: u8 = 0x51;

/// First control and status register.
pub const PCF8563_CONTROL_1: u8 = 0x00;

/// Second control and status register; bit 3 is the alarm flag.
pub const PCF8563_CONTROL_2: u8 = 0x01;

/// First register of the 7-byte time block: seconds with the low-voltage
/// flag in the top bit.
pub const PCF8563_VL_SECONDS: u8 = 0x02;

/// First register of the 4-byte alarm block: the minute alarm.
pub const PCF8563_MINUTE_ALARM: u8 = 0x09;

/// Oscillator-stopped flag in the first control register.
pub const PCF8563_IS_RUNNING_FLAG: u8 = 0b00100000;

/// A calendar time as the chip holds it: all fields plain binary, the year
/// as an offset from 1970.
#[derive(Clone, Copy, Debug, PartialEq, Eq, Structural)]
pub struct Time {
    /// Years since 1970.
    pub year: u8,
    /// Month, 1 to 12.
    pub month: u8,
    /// Day of month, 1 to 31.
    pub day: u8,
    /// Hour, 0 to 23.
    pub hour: u8,
    /// Minute, 0 to 59.
    pub minute: u8,
    /// Second, 0 to 59.
    pub second: u8,
    /// Weekday, 0 to 6; the numbering convention is the producer's.
    pub week: u8,
}

/// The binary value a binary-coded-decimal byte stands for.
pub open spec fn spec_bcd_to_bin(value: u8) -> int {
    (value / 16) * 10 + value % 16
}

/// The binary-coded-decimal byte for a two-digit binary value.
pub open spec fn spec_bin_to_bcd(value: u8) -> int {
    value + 6 * (value / 10)
}

/// Decode a binary-coded-decimal byte.
pub fn bcd_to_bin(value: u8) -> (r: u8)
    ensures
        r as int == spec_bcd_to_bin(value),
{
    ((value / 16) * 10) + (value % 16)
}

/// Encode a two-digit binary value as binary-coded decimal. Values above 99
/// have no two-digit decimal form and are left out.
pub fn bin_to_bcd(value: u8) -> (r: u8)
    requires
        value <= 99,
    ensures
        r as int == spec_bin_to_bcd(value),
{
    value + 6 * (value / 10)
}

/// Encode a two-digit binary value as binary-coded decimal, digit by digit.
pub fn dec_to_bcd(value: u8) -> (r: u8)
    requires
        value <= 99,
    ensures
        r as int == value / 10 * 16 + value % 10,
{
    value / 10 * 16 + value % 10
}

/// Encoding then decoding gives the value back for every two-digit binary
/// value.
pub proof fn lemma_bcd_identity(value: u8)
    requires
        value <= 99,
    ensures
        spec_bcd_to_bin(spec_bin_to_bcd(value) as u8) == value,
{
    assert(spec_bcd_to_bin((value + 6 * (value / 10)) as u8) == value) by (bit_vector)
        requires
            value <= 99,
    ;
}

/// Decoding then encoding gives the byte back for every byte whose nibbles
/// are each a decimal digit.
pub proof fn lemma_bcd_round_trip(value: u8)
    requires
        value & 0x0f <= 9,
        (value >> 4) <= 9,
    ensures
        spec_bin_to_bcd(spec_bcd_to_bin(value) as u8) == value,
{
    assert((((value / 16) * 10 + value % 16) as u8) + 6 * ((((value / 16) * 10 + value % 16) as u8)
        / 10) == value) by (bit_vector)
        requires
            value & 0x0f <= 9,
            (value >> 4) <= 9,
    ;
}

/// The time a 7-byte register block holds, after the documented masks:
/// seconds and minutes keep their low 7 bits, the hour and day their low 6,
/// the weekday its low 3, the month its low 5, and the year the whole byte.
pub open spec fn time_from_regs(b: Seq<u8>) -> Time {
    Time {
        second: spec_bcd_to_bin(b[0] & 0x7f) as u8,
        minute: spec_bcd_to_bin(b[1] & 0x7f) as u8,
        hour: spec_bcd_to_bin(b[2] & 0x3f) as u8,
        day: spec_bcd_to_bin(b[3] & 0x3f) as u8,
        week: spec_bcd_to_bin(b[4] & 0x07) as u8,
        month: spec_bcd_to_bin(b[5] & 0x1f) as u8,
        year: spec_bcd_to_bin(b[6]) as u8,
    }
}

/// Every field of the time fits a two-digit decimal encoding.
pub open spec fn bcd_encodable(t: Time) -> bool {
    t.second <= 99 && t.minute <= 99 && t.hour <= 99 && t.day <= 99 && t.week <= 99 && t.month
        <= 99 && t.year <= 99
}

/// The 7-byte register block written for a time: second, minute, hour, day,
/// weekday, month, year, each binary-coded decimal.
pub open spec fn time_regs(t: Time) -> Seq<u8> {
    seq![
        spec_bin_to_bcd(t.second) as u8,
        spec_bin_to_bcd(t.minute) as u8,
        spec_bin_to_bcd(t.hour) as u8,
        spec_bin_to_bcd(t.day) as u8,
        spec_bin_to_bcd(t.week) as u8,
        spec_bin_to_bcd(t.month) as u8,
        spec_bin_to_bcd(t.year) as u8,
    ]
}

/// The 4-byte alarm register block: minute and hour as plain
/// binary-coded decimal, day and weekday with the match-disable bit set
/// unconditionally.
pub open spec fn alarm_regs(week: u8, day: u8, hour: u8, minute: u8) -> Seq<u8> {
    seq![
        spec_bin_to_bcd(minute) as u8,
        spec_bin_to_bcd(hour) as u8,
        (spec_bin_to_bcd(day) as u8) | 0x80,
        (spec_bin_to_bcd(week) as u8) | 0x80,
    ]
}

/// Trace of one register read: a write transaction carrying the register
/// number, then, when it was fully acknowledged, a read transaction of `m`
/// bytes.
pub open spec fn reg_read_events(reg: u8, feed: Seq<bool>, m: int) -> Seq<LineEvent> {
    write_txn_events(PCF8563_ADDR, seq![reg], feed) + (
    if all_acked(feed, 2) {
        read_txn_events(PCF8563_ADDR, feed.skip(2), m)
    } else {
        Seq::<LineEvent>::empty()
    })
}

/// A register read succeeds when the chip acknowledges the register write
/// and the read address.
pub open spec fn reg_read_ok(feed: Seq<bool>) -> bool {
    all_acked(feed, 3)
}

/// The bytes a register read of `m` bytes assembles out of the feed.
pub open spec fn reg_read_bytes(feed: Seq<bool>, m: int) -> Seq<u8> {
    read_bytes_spec(feed.skip(3), m)
}

/// How many feed slots a register read of `m` bytes consumes.
pub open spec fn reg_read_used(feed: Seq<bool>, m: int) -> int {
    if all_acked(feed, 2) {
        if feed[2] {
            3
        } else {
            3 + 8 * m
        }
    } else {
        clocked_count(feed, 2)
    }
}

/// Trace of one register write burst.
pub open spec fn reg_write_events(reg: u8, data: Seq<u8>, feed: Seq<bool>) -> Seq<LineEvent> {
    write_txn_events(PCF8563_ADDR, seq![reg] + data, feed)
}

/// Protocol client for one clock chip on one bus engine.
pub struct PCF8563<P: BusPins> {
    i2c: SoftwareI2C<P>,
    addr: u8,
}

impl<P: BusPins> PCF8563<P> {
    /// The client speaks to the chip's fixed address.
    pub closed spec fn wf(&self) -> bool {
        self.addr == PCF8563_ADDR
    }

    /// History of every action taken on the bus lines so far.
    pub closed spec fn line_log(&self) -> Seq<LineEvent> {
        self.i2c.line_log()
    }

    /// Levels that the coming samples of the data line will observe.
    pub closed spec fn feed(&self) -> Seq<bool> {
        self.i2c.feed()
    }

    /// Bind the one bus engine this client will drive.
    pub fn new(i2c: SoftwareI2C<P>) -> (rtc: PCF8563<P>)
        ensures
            rtc.wf(),
            rtc.line_log() == i2c.line_log(),
            rtc.feed() == i2c.feed(),
    {
        PCF8563 { i2c, addr: PCF8563_ADDR }
    }

    /// Give the bus engine back, for inspection after a run.
    pub fn into_i2c(self) -> (i2c: SoftwareI2C<P>)
        ensures
            i2c.line_log() == self.line_log(),
            i2c.feed() == self.feed(),
    {
        self.i2c
    }

    /// Burst-read `buf.len()` registers starting at `reg_addr`.
    fn read_byte(&mut self, reg_addr: u8, buf: &mut Vec<u8>) -> (r: Result<(), I2cError>)
        requires
            old(self).wf(),
            old(self).feed().len() >= 3 + 8 * old(buf)@.len() as int,
        ensures
            final(self).wf(),
            final(buf)@.len() == old(buf)@.len(),
            final(self).line_log() == old(self).line_log() + reg_read_events(
                reg_addr,
                old(self).feed(),
                old(buf)@.len() as int,
            ),
            final(self).feed() == old(self).feed().skip(
                reg_read_used(old(self).feed(), old(buf)@.len() as int),
            ),
            r is Ok <==> reg_read_ok(old(self).feed()),
            r is Ok ==> final(buf)@ == reg_read_bytes(old(self).feed(), old(buf)@.len() as int),
            r is Err ==> r == Err::<(), I2cError>(I2cError::Nack) && final(buf)@ == old(buf)@,
    {
        let mut reg: Vec<u8> = Vec::new();
        reg.push(reg_addr);
        proof {
            assert(reg@ =~= seq![reg_addr]);
        }
        let r = self.i2c.write_read(self.addr, reg.as_slice(), buf);
        proof {
            let feed0 = old(self).feed();
            let m = old(buf)@.len() as int;
            if all_acked(feed0, 2) {
                if feed0[2] {
                    assert(!all_acked(feed0, 3));
                } else {
                    assert forall|j: int| 0 <= j < 3 implies !feed0[j] by {
                        if j < 2 {
                            assert(!feed0[j]);
                        }
                    }
                    assert(all_acked(feed0, 3));
                    assert(self.feed() =~= feed0.skip(3 + 8 * m));
                    assert(reg_read_bytes(feed0, m) =~= read_bytes_spec(feed0.skip(3), m));
                }
            } else {
                assert(!all_acked(feed0, 3));
            }
        }
        r
    }

    /// Burst-write `bytes` starting at register `reg_addr`.
    fn write_bytes(&mut self, reg_addr: u8, bytes: &[u8]) -> (r: Result<(), I2cError>)
        requires
            old(self).wf(),
            old(self).feed().len() >= bytes@.len() + 2,
        ensures
            final(self).wf(),
            final(self).line_log() == old(self).line_log() + reg_write_events(
                reg_addr,
                bytes@,
                old(self).feed(),
            ),
            final(self).feed() == old(self).feed().skip(
                clocked_count(old(self).feed(), bytes@.len() as int + 2),
            ),
            r is Ok <==> all_acked(old(self).feed(), bytes@.len() as int + 2),
            r is Err ==> r == Err::<(), I2cError>(I2cError::Nack),
    {
        self.i2c.write_reg(self.addr, reg_addr, bytes)
    }

    /// Write one byte to register `reg_addr` of the chip.
    fn write_byte(&mut self, reg_addr: u8, byte: u8) -> (r: Result<(), I2cError>)
        requires
            old(self).wf(),
            old(self).feed().len() >= 3,
        ensures
            final(self).wf(),
            final(self).line_log() == old(self).line_log() + reg_write_events(
                reg_addr,
                seq![byte],
                old(self).feed(),
            ),
            final(self).feed() == old(self).feed().skip(clocked_count(old(self).feed(), 3)),
            r is Ok <==> all_acked(old(self).feed(), 3),
            r is Err ==> r == Err::<(), I2cError>(I2cError::Nack),
    {
        let mut data: Vec<u8> = Vec::new();
        data.push(byte);
        proof {
            assert(data@ =~= seq![byte]);
        }
        self.i2c.write_reg(self.addr, reg_addr, data.as_slice())
    }

    /// Read the 7-byte time block and decode it with the documented masks.
    pub fn now(&mut self) -> (r: Result<Time, I2cError>)
        requires
            old(self).wf(),
            old(self).feed().len() >= 59,
        ensures
            final(self).wf(),
            final(self).line_log() == old(self).line_log() + reg_read_events(
                PCF8563_VL_SECONDS,
                old(self).feed(),
                7,
            ),
            final(self).feed() == old(self).feed().skip(reg_read_used(old(self).feed(), 7)),
            r is Ok <==> reg_read_ok(old(self).feed()),
            r is Ok ==> r == Ok::<Time, I2cError>(
                time_from_regs(reg_read_bytes(old(self).feed(), 7)),
            ),
            r is Err ==> r == Err::<Time, I2cError>(I2cError::Nack),
    {
        let mut buffer: Vec<u8> = vec![0u8; 7];
        self.read_byte(PCF8563_VL_SECONDS, &mut buffer)?;
        let second = bcd_to_bin(buffer[0] & 0x7F);
        let minute = bcd_to_bin(buffer[1] & 0x7F);
        let hour = bcd_to_bin(buffer[2] & 0x3F);
        let day = bcd_to_bin(buffer[3] & 0x3F);
        let week = bcd_to_bin(buffer[4] & 0x07);
        let month = bcd_to_bin(buffer[5] & 0x1F);
        let year = bcd_to_bin(buffer[6]);
        Ok(Time { year, month, day, hour, minute, second, week })
    }

    /// Encode all 7 fields as binary-coded decimal and write them in one
    /// burst, in the chip's order: second, minute, hour, day, weekday,
    /// month, year.
    pub fn set_time(&mut self, time: Time) -> (r: Result<(), I2cError>)
        requires
            old(self).wf(),
            bcd_encodable(time),
            old(self).feed().len() >= 9,
        ensures
            final(self).wf(),
            final(self).line_log() == old(self).line_log() + reg_write_events(
                PCF8563_VL_SECONDS,
                time_regs(time),
                old(self).feed(),
            ),
            final(self).feed() == old(self).feed().skip(clocked_count(old(self).feed(), 9)),
            r is Ok <==> all_acked(old(self).feed(), 9),
            r is Err ==> r == Err::<(), I2cError>(I2cError::Nack),
    {
        let mut buffer: Vec<u8> = Vec::new();
        buffer.push(bin_to_bcd(time.second));
        buffer.push(bin_to_bcd(time.minute));
        buffer.push(bin_to_bcd(time.hour));
        buffer.push(bin_to_bcd(time.day));
        buffer.push(bin_to_bcd(time.week));
        buffer.push(bin_to_bcd(time.month));
        buffer.push(bin_to_bcd(time.year));
        proof {
            assert(buffer@ =~= time_regs(time));
        }
        self.write_bytes(PCF8563_VL_SECONDS, buffer.as_slice())
    }

    /// Read the second control register and test the alarm flag.
    pub fn check_alarm(&mut self) -> (r: Result<bool, I2cError>)
        requires
            old(self).wf(),
            old(self).feed().len() >= 11,
        ensures
            final(self).wf(),
            final(self).line_log() == old(self).line_log() + reg_read_events(
                PCF8563_CONTROL_2,
                old(self).feed(),
                1,
            ),
            final(self).feed() == old(self).feed().skip(reg_read_used(old(self).feed(), 1)),
            r is Ok <==> reg_read_ok(old(self).feed()),
            r is Ok ==> r == Ok::<bool, I2cError>(
                reg_read_bytes(old(self).feed(), 1)[0] & 8 == 8,
            ),
            r is Err ==> r == Err::<bool, I2cError>(I2cError::Nack),
    {
        let mut buffer: Vec<u8> = vec![0u8; 1];
        self.read_byte(PCF8563_CONTROL_2, &mut buffer)?;
        let alarm = buffer[0] & 8;
        Ok(alarm == 8)
    }

    /// Write the 4-byte alarm block, then blindly overwrite the second
    /// control register to enable the alarm interrupt, clobbering whatever
    /// else it held. Day and weekday matching stay disabled: their
    /// match-disable bit is always set.
    pub fn set_alarm(&mut self, week: u8, day: u8, hour: u8, minute: u8) -> (r: Result<
        (),
        I2cError,
    >)
        requires
            old(self).wf(),
            week <= 99,
            day <= 99,
            hour <= 99,
            minute <= 99,
            old(self).feed().len() >= 9,
        ensures
            final(self).wf(),
            final(self).line_log() == old(self).line_log() + reg_write_events(
                PCF8563_MINUTE_ALARM,
                alarm_regs(week, day, hour, minute),
                old(self).feed(),
            ) + (
            if all_acked(old(self).feed(), 6) {
                reg_write_events(PCF8563_CONTROL_2, seq![6u8], old(self).feed().skip(6))
            } else {
                Seq::<LineEvent>::empty()
            }),
            r is Ok <==> all_acked(old(self).feed(), 9),
            r is Ok ==> final(self).feed() == old(self).feed().skip(9),
            r is Err ==> r == Err::<(), I2cError>(I2cError::Nack),
    {
        let mut buffer: Vec<u8> = Vec::new();
        buffer.push(bin_to_bcd(minute));
        buffer.push(bin_to_bcd(hour));
        buffer.push(bin_to_bcd(day) | 0x80);
        buffer.push(bin_to_bcd(week) | 0x80);
        proof {
            assert(buffer@ =~= alarm_regs(week, day, hour, minute));
        }
        self.write_bytes(PCF8563_MINUTE_ALARM, buffer.as_slice())?;
        proof {
            crate::softwire::lemma_nack_index_all_acked(old(self).feed(), 6);
        }
        let mut ctlreg: Vec<u8> = Vec::new();
        ctlreg.push(0x02 | 0x04);
        proof {
            assert(0x02u8 | 0x04u8 == 6u8) by (bit_vector);
            assert(ctlreg@ =~= seq![6u8]);
        }
        let r = self.write_bytes(PCF8563_CONTROL_2, ctlreg.as_slice());
        proof {
            let feed0 = old(self).feed();
            if all_acked(feed0, 6) && all_acked(feed0.skip(6), 3) {
                assert forall|j: int| 0 <= j < 9 implies !feed0[j] by {
                    if j < 6 {
                        assert(!feed0[j]);
                    } else {
                        assert(feed0.skip(6)[j - 6] == feed0[j]);
                        assert(!feed0.skip(6)[j - 6]);
                    }
                }
                assert(all_acked(feed0, 9));
                crate::softwire::lemma_nack_index_all_acked(feed0.skip(6), 3);
                assert(feed0.skip(6).skip(3) =~= feed0.skip(9));
            }
            if all_acked(feed0, 9) {
                assert(all_acked(feed0.skip(6), 3)) by {
                    assert forall|j: int| 0 <= j < 3 implies !feed0.skip(6)[j] by {
                        assert(feed0.skip(6)[j] == feed0[j + 6]);
                        assert(!feed0[j + 6]);
                    }
                }
            }
        }
        r
    }

    /// Read the second control register and clear the alarm flag by
    /// subtracting it, writing the result back. The chip's answer must have
    /// the flag set: subtracting from a cleared flag would wrap below zero.
    pub fn clear_alarm(&mut self) -> (r: Result<(), I2cError>)
        requires
            old(self).wf(),
            old(self).feed().len() >= 14,
            reg_read_ok(old(self).feed()) ==> reg_read_bytes(old(self).feed(), 1)[0] >= 8,
        ensures
            final(self).wf(),
            final(self).line_log() == old(self).line_log() + reg_read_events(
                PCF8563_CONTROL_2,
                old(self).feed(),
                1,
            ) + (
            if reg_read_ok(old(self).feed()) {
                reg_write_events(
                    PCF8563_CONTROL_2,
                    seq![(reg_read_bytes(old(self).feed(), 1)[0] - 8) as u8],
                    old(self).feed().skip(11),
                )
            } else {
                Seq::<LineEvent>::empty()
            }),
            r is Ok <==> reg_read_ok(old(self).feed()) && all_acked(
                old(self).feed().skip(11),
                3,
            ),
            r is Err ==> r == Err::<(), I2cError>(I2cError::Nack),
    {
        let mut buffer: Vec<u8> = vec![0u8; 1];
        self.read_byte(PCF8563_CONTROL_2, &mut buffer)?;
        let cleared = buffer[0] - 0b00001000;
        let mut data: Vec<u8> = Vec::new();
        data.push(cleared);
        proof {
            assert(data@ =~= seq![(reg_read_bytes(old(self).feed(), 1)[0] - 8) as u8]);
        }
        self.write_bytes(PCF8563_CONTROL_2, data.as_slice())
    }

    /// Read the oscillator-stopped flag from the first control register.
    pub fn is_running(&mut self) -> (r: Result<bool, I2cError>)
        requires
            old(self).wf(),
            old(self).feed().len() >= 11,
        ensures
            final(self).wf(),
            final(self).line_log() == old(self).line_log() + reg_read_events(
                PCF8563_CONTROL_1,
                old(self).feed(),
                1,
            ),
            final(self).feed() == old(self).feed().skip(reg_read_used(old(self).feed(), 1)),
            r is Ok <==> reg_read_ok(old(self).feed()),
            r is Ok ==> r == Ok::<bool, I2cError>(
                (reg_read_bytes(old(self).feed(), 1)[0] >> 5) & 1 != 0,
            ),
            r is Err ==> r == Err::<bool, I2cError>(I2cError::Nack),
    {
        let mut buf: Vec<u8> = vec![0u8; 1];
        self.read_byte(PCF8563_CONTROL_1, &mut buf)?;
        Ok(((buf[0] >> 5) & 1) != 0)
    }

    /// Read the low-voltage flag from the seconds register.
    pub fn lost_power(&mut self) -> (r: Result<bool, I2cError>)
        requires
            old(self).wf(),
            old(self).feed().len() >= 11,
        ensures
            final(self).wf(),
            final(self).line_log() == old(self).line_log() + reg_read_events(
                PCF8563_VL_SECONDS,
                old(self).feed(),
                1,
            ),
            final(self).feed() == old(self).feed().skip(reg_read_used(old(self).feed(), 1)),
            r is Ok <==> reg_read_ok(old(self).feed()),
            r is Ok ==> r == Ok::<bool, I2cError>(
                reg_read_bytes(old(self).feed(), 1)[0] >> 7 != 0,
            ),
            r is Err ==> r == Err::<bool, I2cError>(I2cError::Nack),
    {
        let mut buf: Vec<u8> = vec![0u8; 1];
        self.read_byte(PCF8563_VL_SECONDS, &mut buf)?;
        Ok((buf[0] >> 7) != 0)
    }

    /// Start the clock: read the first control register, fail with
    /// [`I2cError::Bus`] when the oscillator-stopped flag is clear, and
    /// otherwise write the register back with the flag cleared.
    pub fn start(&mut self) -> (r: Result<(), I2cError>)
        requires
            old(self).wf(),
            old(self).feed().len() >= 14,
        ensures
            final(self).wf(),
            final(self).line_log() == old(self).line_log() + reg_read_events(
                PCF8563_CONTROL_1,
                old(self).feed(),
                1,
            ) + (
            if reg_read_ok(old(self).feed()) && reg_read_bytes(old(self).feed(), 1)[0] & 0x20
                != 0 {
                reg_write_events(
                    PCF8563_CONTROL_1,
                    seq![(reg_read_bytes(old(self).feed(), 1)[0] & !(1u8 << 5))],
                    old(self).feed().skip(11),
                )
            } else {
                Seq::<LineEvent>::empty()
            }),
            r is Ok <==> reg_read_ok(old(self).feed()) && reg_read_bytes(old(self).feed(), 1)[0]
                & 0x20 != 0 && all_acked(old(self).feed().skip(11), 3),
            !reg_read_ok(old(self).feed()) ==> r == Err::<(), I2cError>(I2cError::Nack),
            reg_read_ok(old(self).feed()) && reg_read_bytes(old(self).feed(), 1)[0] & 0x20 == 0
                ==> r == Err::<(), I2cError>(I2cError::Bus),
            r is Err ==> r == Err::<(), I2cError>(I2cError::Nack) || r == Err::<(), I2cError>(
                I2cError::Bus,
            ),
    {
        let mut buffer: Vec<u8> = vec![0u8; 1];
        match self.read_byte(PCF8563_CONTROL_1, &mut buffer) {
            Err(e) => {
                proof {
                    assert(self.line_log() =~= old(self).line_log() + reg_read_events(
                        PCF8563_CONTROL_1,
                        old(self).feed(),
                        1,
                    ));
                }
                return Err(e);
            },
            Ok(()) => {},
        }
        proof {
            assert(0x20u8 == 1u8 << 5) by (bit_vector);
            assert(!old(self).feed()[2]);
            assert(all_acked(old(self).feed(), 2));
        }
        if (buffer[0] & PCF8563_IS_RUNNING_FLAG) == 0 {
            proof {
                assert(self.line_log() =~= old(self).line_log() + reg_read_events(
                    PCF8563_CONTROL_1,
                    old(self).feed(),
                    1,
                ));
            }
            return Err(I2cError::Bus);
        }
        if buffer[0] & (1u8 << 5) != 0 {
            self.write_byte(PCF8563_CONTROL_1, buffer[0] & !(1u8 << 5))
        } else {
            proof {
                assert(false);
            }
            Ok(())
        }
    }

    /// Stop the clock: read the first control register, fail with
    /// [`I2cError::Bus`] when the oscillator-stopped flag is clear, and
    /// otherwise write the register back with the flag set.
    pub fn stop(&mut self) -> (r: Result<(), I2cError>)
        requires
            old(self).wf(),
            old(self).feed().len() >= 14,
        ensures
            final(self).wf(),
            final(self).line_log() == old(self).line_log() + reg_read_events(
                PCF8563_CONTROL_1,
                old(self).feed(),
                1,
            ) + (
            if reg_read_ok(old(self).feed()) && reg_read_bytes(old(self).feed(), 1)[0] & 0x20
                != 0 {
                reg_write_events(
                    PCF8563_CONTROL_1,
                    seq![(reg_read_bytes(old(self).feed(), 1)[0] | (1u8 << 5))],
                    old(self).feed().skip(11),
                )
            } else {
                Seq::<LineEvent>::empty()
            }),
            r is Ok <==> reg_read_ok(old(self).feed()) && reg_read_bytes(old(self).feed(), 1)[0]
                & 0x20 != 0 && all_acked(old(self).feed().skip(11), 3),
            !reg_read_ok(old(self).feed()) ==> r == Err::<(), I2cError>(I2cError::Nack),
            reg_read_ok(old(self).feed()) && reg_read_bytes(old(self).feed(), 1)[0] & 0x20 == 0
                ==> r == Err::<(), I2cError>(I2cError::Bus),
            r is Err ==> r == Err::<(), I2cError>(I2cError::Nack) || r == Err::<(), I2cError>(
                I2cError::Bus,
            ),
    {
        let mut buf: Vec<u8> = vec![0u8; 1];
        match self.read_byte(PCF8563_CONTROL_1, &mut buf) {
            Err(e) => {
                proof {
                    assert(self.line_log() =~= old(self).line_log() + reg_read_events(
                        PCF8563_CONTROL_1,
                        old(self).feed(),
                        1,
                    ));
                }
                return Err(e);
            },
            Ok(()) => {},
        }
        proof {
            assert(0x20u8 == 1u8 << 5) by (bit_vector);
            assert(!old(self).feed()[2]);
            assert(all_acked(old(self).feed(), 2));
        }
        if (buf[0] & PCF8563_IS_RUNNING_FLAG) == 0 {
            proof {
                assert(self.line_log() =~= old(self).line_log() + reg_read_events(
                    PCF8563_CONTROL_1,
                    old(self).feed(),
                    1,
                ));
            }
            return Err(I2cError::Bus);
        }
        if buf[0] & (1u8 << 5) != 0 {
            self.write_byte(PCF8563_CONTROL_1, buf[0] | (1u8 << 5))
        } else {
            proof {
                assert(false);
            }
            Ok(())
        }
    }
}

/// Attempted second bind of the clock client: a fatal configuration error,
/// recovered only by a full reset.
#[derive(Clone, Copy, Debug, PartialEq, Eq, Structural)]
pub struct ConfigurationError;

/// Owned slot for the process's one clock client. It is bound exactly once
/// at startup and then handed out by reference; binding it a second time is
/// refused.
pub struct RtcSlot<P: BusPins> {
    inner: Option<PCF8563<P>>,
}

impl<P: BusPins> RtcSlot<P> {
    /// Whether a client has been bound.
    pub closed spec fn is_bound(&self) -> bool {
        self.inner is Some
    }

    /// The bound client.
    pub closed spec fn rtc(&self) -> PCF8563<P>
        recommends
            self.is_bound(),
    {
        self.inner->Some_0
    }

    /// An empty slot.
    pub fn new() -> (slot: RtcSlot<P>)
        ensures
            !slot.is_bound(),
    {
        RtcSlot { inner: None }
    }

    /// Bind the clock client. A second bind attempt is refused with
    /// [`ConfigurationError`] and leaves the first binding in place.
    pub fn set_default_rtc(&mut self, rtc: PCF8563<P>) -> (r: Result<(), ConfigurationError>)
        ensures
            old(self).is_bound() ==> r == Err::<(), ConfigurationError>(ConfigurationError)
                && *final(self) == *old(self),
            !old(self).is_bound() ==> r == Ok::<(), ConfigurationError>(())
                && final(self).is_bound() && final(self).rtc() == rtc,
    {
        if self.inner.is_some() {
            Err(ConfigurationError)
        } else {
            self.inner = Some(rtc);
            Ok(())
        }
    }

    /// Borrow the bound clock client.
    pub fn take(&mut self) -> (rtc: &mut PCF8563<P>)
        requires
            old(self).is_bound(),
        ensures
            *rtc == old(self).rtc(),
            final(self).is_bound(),
            final(self).rtc() == *final(rtc),
    {
        match &mut self.inner {
            Some(rtc) => rtc,
            None => vstd::pervasive::unreached(),
        }
    }
}

} // verus!
