//! Tunable constants of the pairing and wake-up behaviour.

use vstd::prelude::*;

verus! {

/// How long the wake-up button must stay pressed before a press counts,
/// in milliseconds.
pub const DEBOUNCE_TIME: u64 = 50;

/// Seconds of pairing mode without a successful time sync before the
/// supervisor restarts the device.
pub const PAIR_MODE_TIME_OUT: u8 = 20;

/// Hour of the daily refresh alarm.
pub const ALARM_HOUR: u8 = 0;

/// Minute of the daily refresh alarm.
pub const ALARM_MINUTE: u8 = 0;

} // verus!
