//! Time as the credential pool sees it: whole microseconds since the Unix
//! epoch, in UTC, without leap seconds.
//!
//! The calendar itself is left to `chrono`. The two functions that call it
//! are the only unproved statements about time in this crate.

use vstd::prelude::*;

verus! {

/// Microseconds in one minute.
pub const MICROS_PER_MINUTE: i64 = 60_000_000;

/// Microseconds in one UTC day.
pub const MICROS_PER_DAY: i64 = 86_400_000_000;

/// First instant of the calendar: midnight of 1 January of the year -262143.
pub const CALENDAR_FIRST: i64 = -8_334_601_228_800_000_000;

/// Last instant of the calendar: the final microsecond of 31 December 262142.
pub const CALENDAR_LAST: i64 = 8_210_266_876_799_999_999;

/// Whether `at` is an instant that the calendar can name.
pub open spec fn in_calendar(at: int) -> bool {
    CALENDAR_FIRST <= at <= CALENDAR_LAST
}

/// Midnight that opens the UTC day containing `at`.
pub open spec fn day_start(at: int) -> int {
    (at / (MICROS_PER_DAY as int)) * (MICROS_PER_DAY as int)
}

/// Midnight that closes the UTC day containing `at`, which is the first
/// instant of the next day.
pub open spec fn next_day_start(at: int) -> int {
    day_start(at) + MICROS_PER_DAY
}

/// Reads the system clock through `chrono::Utc::now` and converts the reading
/// with `DateTime::timestamp_micros`.
///
/// Nothing is claimed about which instant comes back, only that it is one the
/// calendar can name and not before the epoch: `Utc::now` builds a calendar
/// date from the time elapsed since the epoch. It does not return when the
/// system clock is set before 1970 or beyond the calendar.
#[verifier::external_body]
pub(crate) fn utc_now_micros() -> (now: i64)
    ensures
        0 <= now,
        in_calendar(now as int),
{
    chrono::Utc::now().timestamp_micros()
}

/// Asks `chrono` for the midnight that opens the UTC day of `at`:
/// `DateTime::from_timestamp_micros`, then `date_naive`, `and_time` with
/// `NaiveTime::MIN`, `and_utc` and `timestamp_micros`.
///
/// The claim: inside the calendar there is an answer, and an answer is `at`
/// rounded down to a whole number of days since the epoch. A UTC day of
/// `chrono` always has 86 400 seconds.
#[verifier::external_body]
pub(crate) fn utc_day_start_micros(at: i64) -> (start: Option<i64>)
    ensures
        in_calendar(at as int) ==> start is Some,
        start matches Some(t) ==> t == day_start(at as int),
{
    match chrono::DateTime::from_timestamp_micros(at) {
        Some(moment) => Some(
            moment.date_naive().and_time(chrono::NaiveTime::MIN).and_utc().timestamp_micros(),
        ),
        None => None,
    }
}

/// The day boundary lies at or before the instant, less than a day away, and
/// the next one lies strictly after it.
pub proof fn lemma_day_bounds(at: int)
    ensures
        day_start(at) <= at < next_day_start(at),
        day_start(at) % (MICROS_PER_DAY as int) == 0,
{
    let d = MICROS_PER_DAY as int;
    assert(at == d * (at / d) + at % d) by {
        vstd::arithmetic::div_mod::lemma_fundamental_div_mod(at, d);
    }
    assert(0 <= at % d < d) by {
        vstd::arithmetic::div_mod::lemma_mod_bound(at, d);
    }
    assert(((at / d) * d) % d == 0) by {
        vstd::arithmetic::div_mod::lemma_mod_multiples_basic(at / d, d);
    }
    assert((at / d) * d == d * (at / d)) by (nonlinear_arith);
}

/// First instant of the UTC day after the one containing `at`, or `None` when
/// `at` lies outside the calendar.
pub fn start_of_next_utc_day(at: i64) -> (next: Option<i64>)
    ensures
        in_calendar(at as int) ==> next == Some(next_day_start(at as int) as i64),
        in_calendar(at as int) ==> next_day_start(at as int) <= i64::MAX,
        next matches Some(t) ==> t == next_day_start(at as int),
{
    proof {
        lemma_day_bounds(at as int);
    }
    match utc_day_start_micros(at) {
        Some(start) => start.checked_add(MICROS_PER_DAY),
        None => None,
    }
}

} // verus!
