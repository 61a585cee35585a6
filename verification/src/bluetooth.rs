//! Advertisement time decoder and time-sync orchestration.
//!
//! A broadcast advertisement payload is a back-to-back concatenation of
//! self-delimiting elements, each a declared length, a type tag and data
//! bytes; there is no overall element count, so traversal relies on each
//! element's own declared length to find the next one. A timestamp hides in
//! an element tagged `0x08` or `0x09` whose data reads `'F'`, hexadecimal
//! digits, `'R'`: the digits accumulate base-16 into a 32-bit signed count
//! of UTC seconds since the epoch.
//!
//! Two oddities of the decoder, kept as they are: an interior byte that is
//! no hexadecimal digit is not rejected but contributes digit value 0, and
//! an accumulation step that would overflow clamps the running value to 0
//! instead of wrapping.
//!
//! Weekday numbering is not uniformly defined between producers, so the
//! decoder takes the convention as an explicit [`WeekdayMode`] argument.

use vstd::prelude::*;

use chrono::Datelike;
use chrono::Timelike;

use crate::config;
use crate::pins::BusPins;
use crate::rtc::PCF8563;
use crate::rtc::PCF8563_VL_SECONDS;
use crate::rtc::Time;
use crate::rtc::bcd_encodable;
use crate::rtc::reg_write_events;
use crate::rtc::time_regs;
use crate::softwire::I2cError;
use crate::softwire::all_acked;

verus! {

/// First byte of a timestamp frame.
pub const TIMESTAMP_LEAD: u8 = 0x46;

/// Last byte of a timestamp frame.
pub const TIMESTAMP_TAIL: u8 = 0x52;

/// The calendar fields for a count of UTC seconds since the epoch, in the
/// order year, month, day, hour, minute, second, weekday with Monday as 0.
/// What they are for a given count is the business of the calendar library
/// relied on below; the contracts only carry the name.
pub uninterp spec fn civil_of_epoch(secs: int) -> Seq<int>;

/// Relies on chrono's `DateTime::<Utc>::from_timestamp` and its field
/// accessors: the conversion from a count of UTC seconds since the epoch to
/// calendar fields depends on the count alone; it succeeds for every count
/// in the 32-bit signed range, whose dates fall between 1970 and 2038; the
/// month is 1 to 12, the day 1 to 31, the hour, minute and second within a
/// day, and `num_days_from_monday` 0 to 6.
#[verifier::external_body]
fn epoch_to_civil(secs: i64) -> (r: Option<(u16, u8, u8, u8, u8, u8, u8)>)
    ensures
        0 <= secs <= 0x7fff_ffff ==> r is Some,
        r is Some && 0 <= secs <= 0x7fff_ffff ==> {
            let f = civil_of_epoch(secs as int);
            let t = r->Some_0;
            t.0 as int == f[0] && t.1 as int == f[1] && t.2 as int == f[2] && t.3 as int == f[3]
                && t.4 as int == f[4] && t.5 as int == f[5] && t.6 as int == f[6] && 1970 <= t.0
                <= 2038 && 1 <= t.1 <= 12 && 1 <= t.2 <= 31 && t.3 <= 23 && t.4 <= 59 && t.5 <= 59
                && t.6 <= 6
        },
{
    match chrono::DateTime::from_timestamp(secs, 0) {
        None => None,
        Some(dt) => Some(
            (
                dt.year() as u16,
                dt.month() as u8,
                dt.day() as u8,
                dt.hour() as u8,
                dt.minute() as u8,
                dt.second() as u8,
                dt.weekday().num_days_from_monday() as u8,
            ),
        ),
    }
}

/// Which weekday a producer calls day 0.
#[derive(Clone, Copy, Debug, PartialEq, Eq, Structural)]
pub enum WeekdayMode {
    /// Monday is day 0, as the decoder's calendar library counts.
    MondayZero,
    /// Sunday is day 0, as the clock chip's native field is often read.
    SundayZero,
}

/// The digit value of a payload byte: hexadecimal digits count for
/// themselves, case-insensitively, and every other byte counts as 0.
pub open spec fn hex_digit_val(b: u8) -> int {
    if 0x30 <= b && b <= 0x39 {
        b - 0x30
    } else if 0x41 <= b && b <= 0x46 {
        10 + b - 0x41
    } else if 0x61 <= b && b <= 0x66 {
        10 + b - 0x61
    } else {
        0
    }
}

/// The seconds count accumulated over the interior bytes: base-16
/// multiply-add, with a step that would overflow the 32-bit signed range
/// clamping the running value to 0 instead.
pub open spec fn accum_hex(s: Seq<u8>) -> int
    decreases s.len(),
{
    if s.len() == 0 {
        0
    } else {
        let p = accum_hex(s.drop_last());
        (if 16 * p > 0x7fff_ffff {
            0int
        } else {
            16 * p
        }) + hex_digit_val(s.last())
    }
}

/// The accumulated count stays in the 32-bit signed range.
pub proof fn lemma_accum_hex_bounds(s: Seq<u8>)
    ensures
        0 <= accum_hex(s) <= 0x7fff_ffff,
    decreases s.len(),
{
    if s.len() > 0 {
        lemma_accum_hex_bounds(s.drop_last());
    }
}

/// An element carries a timestamp frame when its tag is `0x08` or `0x09`
/// and its data starts with `'F'` and ends with `'R'`.
pub open spec fn timestamp_framed(tag: u8, data: Seq<u8>) -> bool {
    (tag == 0x08 || tag == 0x09) && data.len() >= 2 && data[0] == TIMESTAMP_LEAD && data.last()
        == TIMESTAMP_TAIL
}

/// The time an element decodes to: for a framed element, the accumulated
/// seconds count converted to calendar fields, the year stored as an offset
/// from 1970 and the weekday renumbered by the given convention; for
/// anything else, nothing.
pub open spec fn decoded_time(tag: u8, data: Seq<u8>, mode: WeekdayMode) -> Option<Time> {
    if timestamp_framed(tag, data) {
        let f = civil_of_epoch(accum_hex(data.subrange(1, data.len() - 1)));
        Some(
            Time {
                year: (f[0] - 1970) as u8,
                month: f[1] as u8,
                day: f[2] as u8,
                hour: f[3] as u8,
                minute: f[4] as u8,
                second: f[5] as u8,
                week: (if mode is MondayZero {
                    f[6]
                } else {
                    (f[6] + 1) % 7
                }) as u8,
            },
        )
    } else {
        None
    }
}

/// One self-delimiting chunk of an advertisement payload. It never outlives
/// the payload buffer it references.
#[derive(Debug)]
pub struct AdStructure<'d> {
    ad_len: u8,
    ad_type: u8,
    ad_data: &'d [u8],
}

impl<'d> AdStructure<'d> {
    /// The element's declared length: its type tag and data together.
    pub closed spec fn ad_len(&self) -> u8 {
        self.ad_len
    }

    /// The element's type tag.
    pub closed spec fn ad_type(&self) -> u8 {
        self.ad_type
    }

    /// The element's data bytes.
    pub closed spec fn ad_data(&self) -> Seq<u8> {
        self.ad_data@
    }

    /// Carve one element out of the front of a buffer: the declared length,
    /// the type tag, and the data up to the declared length, which counts
    /// the type byte, so a declared length of 1 gives an element with empty
    /// data. A buffer too short for its own declared length, too short to
    /// hold any element at all, or one whose declared length is 0, yields
    /// nothing.
    pub fn new(data: &'d [u8]) -> (r: Option<AdStructure<'d>>)
        ensures
            r is Some <==> data@.len() >= 3 && data@[0] >= 1 && 1 + data@[0] <= data@.len(),
            r is Some ==> {
                let ad = r->Some_0;
                ad.ad_len() == data@[0] && ad.ad_type() == data@[1] && ad.ad_data()
                    == data@.subrange(2, 1 + data@[0] as int)
            },
    {
        if data.len() < 3 {
            return None;
        }
        let ad_len = data[0] as usize;
        let ad_type = data[1];
        if ad_len < 1 || data.len() < 1 + ad_len {
            return None;
        }
        let ad_data = &data[2..1 + ad_len];
        Some(AdStructure { ad_len: ad_len as u8, ad_type, ad_data })
    }

    /// Decode the element's timestamp, if it carries one: exactly
    /// [`decoded_time`] of its tag and data. A decoded time always fits the
    /// clock chip's two-digit decimal encoding.
    pub fn parse2time(&self, mode: WeekdayMode) -> (r: Option<Time>)
        ensures
            r == decoded_time(self.ad_type(), self.ad_data(), mode),
            r is Some ==> bcd_encodable(r->Some_0),
    {
        if !(self.ad_type == 0x09 || self.ad_type == 0x08) {
            return None;
        }
        let data = self.ad_data;
        let len = data.len();
        if !(len >= 2 && data[0] == TIMESTAMP_LEAD && data[len - 1] == TIMESTAMP_TAIL) {
            return None;
        }
        let ghost interior = data@.subrange(1, data@.len() - 1);
        let mut result: i32 = 0;
        let mut i: usize = 1;
        proof {
            assert(data@.subrange(1, 1) =~= interior.take(0));
            assert(accum_hex(data@.subrange(1, 1)) == 0);
        }
        while i < len - 1
            invariant
                1 <= i <= len - 1,
                len == data@.len(),
                len >= 2,
                interior == data@.subrange(1, data@.len() - 1),
                result as int == accum_hex(data@.subrange(1, i as int)),
                0 <= result <= 0x7fff_ffff,
            decreases len - i,
        {
            let b = data[i];
            let digit: i32 = if b >= 0x30 && b <= 0x39 {
                (b - 0x30) as i32
            } else if b >= 0x41 && b <= 0x46 {
                10 + (b - 0x41) as i32
            } else if b >= 0x61 && b <= 0x66 {
                10 + (b - 0x61) as i32
            } else {
                0
            };
            let clamped: i32 = if result > 0x7ff_ffff {
                0
            } else {
                result * 16
            };
            result = clamped + digit;
            proof {
                let pre = data@.subrange(1, i as int);
                let cur = data@.subrange(1, i as int + 1);
                assert(cur.drop_last() =~= pre);
                assert(cur.last() == data@[i as int]);
                assert(digit as int == hex_digit_val(data@[i as int]));
                lemma_accum_hex_bounds(cur);
            }
            i = i + 1;
        }
        proof {
            assert(data@.subrange(1, len - 1 as int) == interior);
            lemma_accum_hex_bounds(interior);
        }
        match epoch_to_civil(result as i64) {
            None => {
                proof {
                    assert(false);
                }
                None
            },
            Some(fields) => {
                let (year, month, day, hour, minute, second, wd) = fields;
                let week = match mode {
                    WeekdayMode::MondayZero => wd,
                    WeekdayMode::SundayZero => (wd + 1) % 7,
                };
                Some(
                    Time {
                        year: (year - 1970) as u8,
                        month,
                        day,
                        hour,
                        minute,
                        second,
                        week,
                    },
                )
            },
        }
    }
}

/// The starts of the elements a payload walk emits, from offset `i` on: at
/// each position the declared element length names the next position, a
/// declared length that would run past the end of the payload stops the
/// walk with nothing emitted there, and a block too short to be an element
/// is stepped over without being emitted.
pub open spec fn emitted_starts(payload: Seq<u8>, i: int) -> Seq<int>
    decreases payload.len() - i,
{
    if i < 0 || i >= payload.len() {
        Seq::empty()
    } else if i + payload[i] + 1 > payload.len() {
        Seq::empty()
    } else if payload[i] >= 2 {
        seq![i] + emitted_starts(payload, i + payload[i] + 1)
    } else {
        emitted_starts(payload, i + payload[i] + 1)
    }
}

/// The element starting at `s` of the payload.
pub open spec fn element_matches<'d>(payload: Seq<u8>, s: int, ad: AdStructure<'d>) -> bool {
    &&& ad.ad_len() == payload[s]
    &&& ad.ad_type() == payload[s + 1]
    &&& ad.ad_data() == payload.subrange(s + 2, s + 1 + payload[s])
}

/// No emitted element starts where its declared length would read past the
/// end of the payload.
pub proof fn lemma_no_element_overruns(payload: Seq<u8>, i: int)
    ensures
        forall|k: int|
            0 <= k < emitted_starts(payload, i).len() ==> {
                let s = #[trigger] emitted_starts(payload, i)[k];
                0 <= s < payload.len() && s + payload[s] + 1 <= payload.len()
            },
    decreases payload.len() - i,
{
    if 0 <= i < payload.len() && i + payload[i] + 1 <= payload.len() {
        let next = i + payload[i] + 1;
        lemma_no_element_overruns(payload, next);
        assert forall|k: int| 0 <= k < emitted_starts(payload, i).len() implies {
            let s = #[trigger] emitted_starts(payload, i)[k];
            0 <= s < payload.len() && s + payload[s] + 1 <= payload.len()
        } by {
            if payload[i] >= 2 {
                if k == 0 {
                    assert(emitted_starts(payload, i)[0] == i);
                } else {
                    assert(emitted_starts(payload, i)[k] == emitted_starts(payload, next)[k - 1]);
                }
            } else {
                assert(emitted_starts(payload, i)[k] == emitted_starts(payload, next)[k]);
            }
        }
    }
}

/// Walk the payload from offset 0 and carve out every element, relying on
/// each element's own declared length to find the next one.
pub fn parse_elements<'d>(payload: &'d [u8]) -> (r: Vec<AdStructure<'d>>)
    ensures
        r@.len() == emitted_starts(payload@, 0).len(),
        forall|k: int|
            0 <= k < r@.len() ==> element_matches(
                payload@,
                emitted_starts(payload@, 0)[k],
                #[trigger] r@[k],
            ),
{
    let ghost starts = emitted_starts(payload@, 0);
    let mut r: Vec<AdStructure<'d>> = Vec::new();
    let len = payload.len();
    let mut i: usize = 0;
    proof {
        assert(starts =~= starts.take(0) + emitted_starts(payload@, 0));
    }
    while i < len
        invariant
            len == payload@.len(),
            i <= len,
            starts == emitted_starts(payload@, 0),
            r@.len() + emitted_starts(payload@, i as int).len() == starts.len(),
            starts =~= starts.take(r@.len() as int) + emitted_starts(payload@, i as int),
            forall|k: int|
                0 <= k < r@.len() ==> element_matches(payload@, starts[k], #[trigger] r@[k]),
        decreases len - i,
    {
        let l = payload[i] as usize;
        let rest = len - i;
        if l + 1 > rest {
            proof {
                assert(emitted_starts(payload@, i as int) =~= Seq::<int>::empty());
                assert(starts =~= starts.take(r@.len() as int));
            }
            return r;
        }
        let block = &payload[i..i + l + 1];
        proof {
            assert(block@ =~= payload@.subrange(i as int, i as int + l as int + 1));
        }
        let might = AdStructure::new(block);
        match might {
            Some(ad) => {
                proof {
                    let n = r@.len() as int;
                    assert(emitted_starts(payload@, i as int) == seq![i as int]
                        + emitted_starts(payload@, i as int + l as int + 1));
                    assert(starts[n] == i as int);
                    assert(starts.take(n + 1) =~= starts.take(n) + seq![i as int]);
                    assert(block@[0] == payload@[i as int]);
                    assert(block@[1] == payload@[i as int + 1]);
                    assert(block@.subrange(2, 1 + block@[0] as int) =~= payload@.subrange(
                        i as int + 2,
                        i as int + 1 + l as int,
                    ));
                    assert(element_matches(payload@, i as int, ad));
                }
                r.push(ad);
                proof {
                    assert(starts =~= starts.take(r@.len() as int) + emitted_starts(
                        payload@,
                        i as int + l as int + 1,
                    ));
                }
            },
            None => {
                proof {
                    assert(l < 2);
                    assert(emitted_starts(payload@, i as int) == emitted_starts(
                        payload@,
                        i as int + l as int + 1,
                    ));
                }
            },
        }
        i = i + l + 1;
    }
    proof {
        assert(emitted_starts(payload@, i as int) =~= Seq::<int>::empty());
        assert(starts =~= starts.take(r@.len() as int));
    }
    r
}

/// Whether a payload walk from offset `i` reaches a timestamp-framed
/// element.
pub open spec fn has_timestamp(payload: Seq<u8>, i: int) -> bool
    decreases payload.len() - i,
{
    if i < 0 || i >= payload.len() {
        false
    } else if i + payload[i] + 1 > payload.len() {
        false
    } else if payload[i] >= 2 && timestamp_framed(
        payload[i + 1],
        payload.subrange(i + 2, i + 1 + payload[i]),
    ) {
        true
    } else {
        has_timestamp(payload, i + payload[i] + 1)
    }
}

/// The first timestamp a payload walk from offset `i` decodes: the walk
/// stops at the first timestamp-framed element, so one payload yields at
/// most one timestamp.
pub open spec fn first_timestamp(payload: Seq<u8>, i: int, mode: WeekdayMode) -> Option<Time>
    decreases payload.len() - i,
{
    if i < 0 || i >= payload.len() {
        None::<Time>
    } else if i + payload[i] + 1 > payload.len() {
        None::<Time>
    } else if payload[i] >= 2 && timestamp_framed(
        payload[i + 1],
        payload.subrange(i + 2, i + 1 + payload[i]),
    ) {
        decoded_time(payload[i + 1], payload.subrange(i + 2, i + 1 + payload[i]), mode)
    } else {
        first_timestamp(payload, i + payload[i] + 1, mode)
    }
}

/// What the discovery loop is to do after one notification.
#[derive(Clone, Copy, Debug, PartialEq, Eq, Structural)]
pub enum SyncOutcome {
    /// The first decoded timestamp was written to the clock chip: the
    /// caller must now trigger the full device reset that re-enters normal
    /// display mode with the freshly seeded clock.
    Synced,
    /// The payload held no timestamp; keep listening.
    NoTimestamp,
}

/// Handle one discovered-device notification: walk the payload, decode the
/// first timestamp-framed element, and on success write it to the clock
/// chip in one burst. `Synced` asks the caller for exactly one device
/// reset; a payload without a timestamp changes nothing.
pub fn handle_discovered_device<P: BusPins>(
    rtc: &mut PCF8563<P>,
    payload: &[u8],
    mode: WeekdayMode,
) -> (r: Result<SyncOutcome, I2cError>)
    requires
        old(rtc).wf(),
        has_timestamp(payload@, 0) ==> old(rtc).feed().len() >= 9,
    ensures
        final(rtc).wf(),
        !has_timestamp(payload@, 0) ==> r == Ok::<SyncOutcome, I2cError>(SyncOutcome::NoTimestamp)
            && *final(rtc) == *old(rtc),
        has_timestamp(payload@, 0) ==> final(rtc).line_log() == old(rtc).line_log()
            + reg_write_events(
            PCF8563_VL_SECONDS,
            time_regs(first_timestamp(payload@, 0, mode)->Some_0),
            old(rtc).feed(),
        ),
        has_timestamp(payload@, 0) ==> (r == Ok::<SyncOutcome, I2cError>(SyncOutcome::Synced)
            <==> all_acked(old(rtc).feed(), 9)),
        has_timestamp(payload@, 0) ==> final(rtc).feed() == old(rtc).feed().skip(
            crate::softwire::clocked_count(old(rtc).feed(), 9),
        ),
        r is Err ==> r == Err::<SyncOutcome, I2cError>(I2cError::Nack) && has_timestamp(
            payload@,
            0,
        ),
{
    let len = payload.len();
    let mut i: usize = 0;
    while i < len
        invariant
            old(rtc).wf(),
            len == payload@.len(),
            i <= len,
            *rtc == *old(rtc),
            has_timestamp(payload@, 0) == has_timestamp(payload@, i as int),
            first_timestamp(payload@, 0, mode) == first_timestamp(payload@, i as int, mode),
            has_timestamp(payload@, 0) ==> old(rtc).feed().len() >= 9,
        decreases len - i,
    {
        let l = payload[i] as usize;
        let rest = len - i;
        if l + 1 > rest {
            proof {
                assert(!has_timestamp(payload@, i as int));
            }
            return Ok(SyncOutcome::NoTimestamp);
        }
        let block = &payload[i..i + l + 1];
        proof {
            assert(block@ =~= payload@.subrange(i as int, i as int + l as int + 1));
        }
        let might = AdStructure::new(block);
        match might {
            Some(ad) => {
                proof {
                    assert(block@[0] == payload@[i as int]);
                    assert(block@[1] == payload@[i as int + 1]);
                    assert(block@.subrange(2, 1 + block@[0] as int) =~= payload@.subrange(
                        i as int + 2,
                        i as int + 1 + l as int,
                    ));
                }
                match ad.parse2time(mode) {
                    Some(time) => {
                        proof {
                            assert(timestamp_framed(
                                payload@[i as int + 1],
                                payload@.subrange(i as int + 2, i as int + 1 + l as int),
                            ));
                            assert(has_timestamp(payload@, i as int));
                            assert(first_timestamp(payload@, i as int, mode) == Some(time));
                            assert(first_timestamp(payload@, 0, mode) == Some(time));
                        }
                        match rtc.set_time(time) {
                            Ok(()) => {
                                return Ok(SyncOutcome::Synced);
                            },
                            Err(e) => {
                                return Err(e);
                            },
                        }
                    },
                    None => {
                        proof {
                            assert(!timestamp_framed(
                                payload@[i as int + 1],
                                payload@.subrange(i as int + 2, i as int + 1 + l as int),
                            ));
                        }
                    },
                }
            },
            None => {
                proof {
                    assert(l < 2);
                }
            },
        }
        i = i + l + 1;
    }
    proof {
        assert(!has_timestamp(payload@, i as int));
    }
    Ok(SyncOutcome::NoTimestamp)
}

/// Capacity of the wake-up queue between the radio stack's event context
/// and the discovery loop.
pub const EVENT_QUEUE_CAPACITY: usize = 10;

/// Bounded wake-up queue between an event context that must never block
/// and a cooperative consumer: a send to a full queue drops the
/// notification, which is harmless because re-triggering discovery is
/// idempotent and duplicate wake-ups do no work.
pub struct EventQueue {
    items: Vec<bool>,
    capacity: usize,
}

impl EventQueue {
    /// The queued wake-ups, oldest first.
    pub closed spec fn items(&self) -> Seq<bool> {
        self.items@
    }

    /// The queue's fixed capacity.
    pub closed spec fn capacity(&self) -> int {
        self.capacity as int
    }

    /// An empty queue of the given capacity.
    pub fn new(capacity: usize) -> (q: EventQueue)
        ensures
            q.items() == Seq::<bool>::empty(),
            q.capacity() == capacity,
    {
        EventQueue { items: Vec::new(), capacity }
    }

    /// Non-blocking send: enqueue the wake-up unless the queue is full, and
    /// say whether it was kept.
    pub fn try_send(&mut self, value: bool) -> (accepted: bool)
        ensures
            accepted == (old(self).items().len() < old(self).capacity()),
            accepted ==> final(self).items() == old(self).items().push(value),
            !accepted ==> final(self).items() == old(self).items(),
            final(self).capacity() == old(self).capacity(),
    {
        if self.items.len() < self.capacity {
            self.items.push(value);
            true
        } else {
            false
        }
    }

    /// Take the oldest queued wake-up, if any.
    pub fn try_recv(&mut self) -> (r: Option<bool>)
        ensures
            old(self).items().len() == 0 ==> r is None && final(self).items() == old(self).items(),
            old(self).items().len() > 0 ==> r == Some(old(self).items()[0]) && final(self).items()
                == old(self).items().drop_first(),
            final(self).capacity() == old(self).capacity(),
    {
        if self.items.len() == 0 {
            None
        } else {
            let value = self.items.remove(0);
            proof {
                assert(self.items@ =~= old(self).items().drop_first());
            }
            Some(value)
        }
    }

    /// How many wake-ups are queued.
    pub fn len(&self) -> (n: usize)
        ensures
            n == self.items().len(),
    {
        self.items.len()
    }
}

/// What the timeout supervisor decides on one tick.
#[derive(Clone, Copy, Debug, PartialEq, Eq, Structural)]
pub enum SupervisorAction {
    /// Keep waiting.
    Continue,
    /// The button is down past the grace period: sample it again after the
    /// debounce window.
    DebounceProbe,
    /// Reset the device.
    Reset,
}

/// Seconds of pairing mode elapsed, read off the clock's second field with
/// wrap-around at the minute.
pub open spec fn spec_elapsed(begin_second: u8, now_second: u8) -> int {
    if now_second < begin_second {
        60 - begin_second + now_second
    } else {
        now_second - begin_second
    }
}

/// The supervisor's decision for an elapsed count and a button level: past
/// the timeout the device resets; past the initial grace period a held
/// button is probed again after the debounce window; otherwise it waits.
pub open spec fn spec_supervisor_action(delta: u8, button_pressed: bool) -> SupervisorAction {
    if delta > config::PAIR_MODE_TIME_OUT {
        SupervisorAction::Reset
    } else if delta > 5 && button_pressed {
        SupervisorAction::DebounceProbe
    } else {
        SupervisorAction::Continue
    }
}

/// One tick of the timeout supervisor: how long pairing mode has run, and
/// what to do about it.
pub fn supervisor_step(pair_begin_second: u8, now_second: u8, button_pressed: bool) -> (r: (
    u8,
    SupervisorAction,
))
    requires
        pair_begin_second <= 60,
    ensures
        r.0 as int == spec_elapsed(pair_begin_second, now_second),
        r.1 == spec_supervisor_action(r.0, button_pressed),
{
    let delta: u8 = if now_second < pair_begin_second {
        (60 - pair_begin_second) + now_second
    } else {
        now_second - pair_begin_second
    };
    let action = if delta > config::PAIR_MODE_TIME_OUT {
        SupervisorAction::Reset
    } else if delta > 5 && button_pressed {
        SupervisorAction::DebounceProbe
    } else {
        SupervisorAction::Continue
    };
    (delta, action)
}

/// The second sample of the button, one debounce window after a probe: a
/// button still held resets the device.
pub fn debounce_confirm(button_pressed: bool) -> (r: SupervisorAction)
    ensures
        button_pressed ==> r == SupervisorAction::Reset,
        !button_pressed ==> r == SupervisorAction::Continue,
{
    if button_pressed {
        SupervisorAction::Reset
    } else {
        SupervisorAction::Continue
    }
}


} // verus!
