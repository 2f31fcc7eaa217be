//! Time model of the library.
//!
//! A point in time is an `i128` count of nanoseconds since the Unix epoch (UTC), and a
//! duration is an `i128` count of nanoseconds. Both are ordered as plain integers, which is
//! the order of the instants they stand for.

use vstd::prelude::*;

verus! {

/// Nanoseconds in one millisecond.
pub const NANOS_PER_MILLI: i128 = 1_000_000;

/// Nanoseconds in one second.
pub const NANOS_PER_SECOND: i128 = 1_000_000_000;

/// The Unix epoch, the earliest cursor value of news queries.
pub const TIME_MIN: i128 = 0;

/// The last representable instant, `9999-12-31 23:59:59.999999999 UTC`.
pub const TIME_MAX: i128 = 253_402_300_799_999_999_999;

/// The first representable instant, `-9999-01-01 00:00:00 UTC`.
pub const INSTANT_MIN: i128 = -377_705_116_800_000_000_000;

/// The longest representable duration: `i64::MAX` seconds and 999999999 nanoseconds.
pub const DURATION_MAX: i128 = 9_223_372_036_854_775_807_999_999_999;

/// The most negative representable duration: `i64::MIN` seconds and -999999999 nanoseconds.
pub const DURATION_MIN: i128 = -9_223_372_036_854_775_808_999_999_999;

/// Whether `t` names a representable instant.
pub open spec fn is_instant(t: int) -> bool {
    INSTANT_MIN <= t <= TIME_MAX
}

/// Whether `d` is a representable duration.
pub open spec fn is_duration(d: int) -> bool {
    DURATION_MIN <= d <= DURATION_MAX
}

/// `a - b`, saturated to the representable durations.
pub open spec fn saturating_sub_spec(a: int, b: int) -> int {
    if a - b > DURATION_MAX {
        DURATION_MAX as int
    } else if a - b < DURATION_MIN {
        DURATION_MIN as int
    } else {
        a - b
    }
}

/// `a - b`, saturated to the representable durations.
pub fn saturating_sub(a: i128, b: i128) -> (r: i128)
    requires
        is_duration(a as int),
        is_duration(b as int),
    ensures
        r == saturating_sub_spec(a as int, b as int),
        is_duration(r as int),
{
    let d = a - b;
    if d > DURATION_MAX {
        DURATION_MAX
    } else if d < DURATION_MIN {
        DURATION_MIN
    } else {
        d
    }
}

/// Smallest Unix timestamp (in seconds) of a representable instant: `-9999-01-01 00:00:00 UTC`.
pub const UNIX_SECONDS_MIN: i64 = -377_705_116_800;

/// Largest Unix timestamp (in seconds) of a representable instant: `9999-12-31 23:59:59 UTC`.
pub const UNIX_SECONDS_MAX: i64 = 253_402_300_799;

/// Whether a Unix timestamp in seconds names a representable instant.
pub open spec fn unix_seconds_in_range(seconds: int) -> bool {
    UNIX_SECONDS_MIN <= seconds <= UNIX_SECONDS_MAX
}

/// The instant of a Unix timestamp given in whole seconds, or `None` when it is outside the
/// representable range.
pub fn from_unix_timestamp(seconds: i64) -> (r: Option<i128>)
    ensures
        match r {
            Some(t) => unix_seconds_in_range(seconds as int) && t == seconds * NANOS_PER_SECOND,
            None => !unix_seconds_in_range(seconds as int),
        },
{
    if seconds < UNIX_SECONDS_MIN || seconds > UNIX_SECONDS_MAX {
        None
    } else {
        let s: i128 = seconds as i128;
        assert(-377_705_116_800 * 1_000_000_000 <= s * NANOS_PER_SECOND <= 253_402_300_799 * 1_000_000_000) by (nonlinear_arith)
            requires -377_705_116_800 <= s <= 253_402_300_799, NANOS_PER_SECOND == 1_000_000_000;
        Some(s * NANOS_PER_SECOND)
    }
}


/// `a / b` rounded toward zero.
pub open spec fn div_toward_zero(a: int, b: int) -> int
    recommends
        b > 0,
{
    if a >= 0 {
        a / b
    } else {
        -((-a) / b)
    }
}

/// The whole milliseconds of a duration (rounded toward zero).
pub fn whole_milliseconds(d: i128) -> (r: i128)
    requires
        is_duration(d as int),
    ensures
        r == div_toward_zero(d as int, NANOS_PER_MILLI as int),
{
    if d >= 0 {
        d / NANOS_PER_MILLI
    } else {
        -((-d) / NANOS_PER_MILLI)
    }
}
} // verus!
