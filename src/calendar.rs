use vstd::prelude::*;
use crate::motion::DAY_UNIT;

verus! {

/// Seconds in one civil day.
pub const SECONDS_PER_DAY: i64 = 86_400;

/// The Julian day number at noon of the epoch's eve: the epoch itself is
/// the midnight that follows it, Julian day 588465.5.
pub const EPOCH_DAY_NUMBER: i64 = 588_466;

/// The Julian day number of a proleptic Gregorian date.
pub open spec fn julian_day_number(year: int, month: int, day: int) -> int {
    let a = (14 - month) / 12;
    let y = year + 4800 - a;
    let m = month + 12 * a - 3;
    day + (153 * m + 2) / 5 + 365 * y + y / 4 - y / 100 + y / 400 - 32045
}

/// Nano-days from the epoch to `seconds` after midnight of a date.
pub open spec fn elapsed_of(year: int, month: int, day: int, seconds: int) -> int {
    (julian_day_number(year, month, day) - EPOCH_DAY_NUMBER) * (DAY_UNIT as int)
        + seconds * (DAY_UNIT as int) / (SECONDS_PER_DAY as int)
}

/// Nano-days elapsed from the epoch to `seconds` after midnight of the
/// proleptic Gregorian date `year`-`month`-`day`, rounded down.
pub fn days_since_epoch(year: i64, month: i64, day: i64, seconds: i64) -> (r: i64)
    requires
        -4799 <= year <= 1_000_000,
        1 <= month <= 12,
        1 <= day <= 31,
        0 <= seconds < SECONDS_PER_DAY,
    ensures
        r == elapsed_of(year as int, month as int, day as int, seconds as int),
{
    let a: i64 = (14 - month) / 12;
    let y: i64 = year + 4800 - a;
    let m: i64 = month + 12 * a - 3;
    let jdn: i64 = day + (153 * m + 2) / 5 + 365 * y + y / 4 - y / 100 + y / 400 - 32045;
    proof {
        assert(0 <= y / 4 <= y);
        assert(0 <= y / 100 <= y);
        assert(0 <= y / 400 <= y);
        assert(0 <= (153 * m + 2) / 5 <= 153 * m + 2);
    }
    (jdn - EPOCH_DAY_NUMBER) * DAY_UNIT + seconds * DAY_UNIT / SECONDS_PER_DAY
}

} // verus!
