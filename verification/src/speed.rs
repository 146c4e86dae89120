//! Average speed between two observations of a vehicle, in exact integer
//! arithmetic.
//!
//! A vehicle that covers `miles` in `seconds` moves at `3600 * miles /
//! seconds` miles per hour. Speeds are reported in hundredths of a mile per
//! hour, rounded to the nearest hundredth, and compared with a limit without
//! rounding.

use vstd::prelude::*;

verus! {

/// The length of a day in seconds.
pub const SECONDS_PER_DAY: u32 = 86400;

/// The day that a timestamp falls in.
pub open spec fn day_of(timestamp: u32) -> nat {
    (timestamp / SECONDS_PER_DAY) as nat
}

/// The distance between two numbers.
pub open spec fn gap(a: int, b: int) -> nat {
    if a <= b {
        (b - a) as nat
    } else {
        (a - b) as nat
    }
}

/// The speed at which `miles` are covered in `seconds`, in hundredths of a
/// mile per hour, rounded to the nearest hundredth (a half rounds up).
pub open spec fn hundredths(miles: nat, seconds: nat) -> nat
    recommends
        seconds > 0,
{
    (720000 * miles + seconds) / (2 * seconds)
}

/// The average speed of a vehicle seen at `mile_a` at `time_a` and at
/// `mile_b` at `time_b`, in hundredths of a mile per hour. Two observations
/// at the same moment give no speed.
pub open spec fn speed_between(mile_a: u16, time_a: u32, mile_b: u16, time_b: u32) -> Option<nat> {
    if time_a == time_b {
        None
    } else {
        Some(hundredths(gap(mile_a as int, mile_b as int), gap(time_a as int, time_b as int)))
    }
}

/// True when covering `miles` in `seconds` is faster than `limit` miles per
/// hour by more than half a mile per hour: `3600 * miles / seconds > limit +
/// 1/2`, with both sides multiplied by `2 * seconds`.
pub open spec fn over_limit(miles: nat, seconds: nat, limit: nat) -> bool {
    7200 * miles > (2 * limit + 1) * seconds
}

/// True when the average speed between the two observations is more than half
/// a mile per hour over `limit`.
pub open spec fn speeding_between(
    mile_a: u16,
    time_a: u32,
    mile_b: u16,
    time_b: u32,
    limit: u16,
) -> bool {
    time_a != time_b && over_limit(
        gap(mile_a as int, mile_b as int),
        gap(time_a as int, time_b as int),
        limit as nat,
    )
}

/// The reported speed differs from the exact speed, `360000 * miles /
/// seconds` hundredths, by at most half a hundredth.
pub proof fn lemma_speed_is_nearest_hundredth(miles: nat, seconds: nat)
    requires
        seconds > 0,
    ensures
        2 * gap((hundredths(miles, seconds) * seconds) as int, (360000 * miles) as int) <= seconds,
{
    let v = hundredths(miles, seconds);
    let n = 720000 * miles + seconds;
    let d = 2 * seconds;
    assert(n == d * (n / d) + n % d && 0 <= n % d < d) by {
        vstd::arithmetic::div_mod::lemma_fundamental_div_mod(n as int, d as int);
        vstd::arithmetic::div_mod::lemma_mod_bound(n as int, d as int);
    }
    assert(d * v == 2 * (v * seconds)) by (nonlinear_arith)
        requires
            d == 2 * seconds,
    ;
}

/// The speed between two observations does not depend on which of them is
/// given first.
pub proof fn lemma_speed_is_symmetric(mile_a: u16, time_a: u32, mile_b: u16, time_b: u32, limit: u16)
    ensures
        speed_between(mile_a, time_a, mile_b, time_b) == speed_between(
            mile_b,
            time_b,
            mile_a,
            time_a,
        ),
        speeding_between(mile_a, time_a, mile_b, time_b, limit) == speeding_between(
            mile_b,
            time_b,
            mile_a,
            time_a,
            limit,
        ),
{
}

/// A speed that is over the limit is reported as more than the limit.
pub proof fn lemma_speeding_is_reported_above_limit(miles: nat, seconds: nat, limit: nat)
    requires
        seconds > 0,
        over_limit(miles, seconds, limit),
    ensures
        hundredths(miles, seconds) > 100 * limit,
{
    let n = 720000 * miles + seconds;
    let d = 2 * seconds;
    assert(n >= d * (100 * limit + 1)) by (nonlinear_arith)
        requires
            n == 720000 * miles + seconds,
            d == 2 * seconds,
            7200 * miles > (2 * limit + 1) * seconds,
            seconds > 0,
    ;
    vstd::arithmetic::div_mod::lemma_div_is_ordered((d * (100 * limit + 1)) as int, n as int, d as int);
    vstd::arithmetic::div_mod::lemma_div_multiples_vanish((100 * limit + 1) as int, d as int);
    assert(d * (100 * limit + 1) == (100 * limit + 1) * d) by (nonlinear_arith);
}

/// The day that a timestamp falls in.
pub fn day_key(timestamp: u32) -> (day: u32)
    ensures
        day == day_of(timestamp),
{
    timestamp / SECONDS_PER_DAY
}

/// The distance in miles between two mile markers.
pub fn miles_between(mile_a: u16, mile_b: u16) -> (miles: u16)
    ensures
        miles == gap(mile_a as int, mile_b as int),
{
    if mile_a <= mile_b {
        mile_b - mile_a
    } else {
        mile_a - mile_b
    }
}

/// The time in seconds between two timestamps.
pub fn seconds_between(time_a: u32, time_b: u32) -> (seconds: u32)
    ensures
        seconds == gap(time_a as int, time_b as int),
{
    if time_a <= time_b {
        time_b - time_a
    } else {
        time_a - time_b
    }
}

/// The average speed between two observations, in hundredths of a mile per
/// hour; none where both were made at the same moment.
pub fn average_speed(mile_a: u16, time_a: u32, mile_b: u16, time_b: u32) -> (speed: Option<u64>)
    ensures
        speed is Some <==> time_a != time_b,
        match speed {
            Some(speed) => Some(speed as nat) == speed_between(mile_a, time_a, mile_b, time_b),
            None => speed_between(mile_a, time_a, mile_b, time_b) is None,
        },
{
    if time_a == time_b {
        return None;
    }
    let miles: u64 = miles_between(mile_a, mile_b) as u64;
    let seconds: u64 = seconds_between(time_a, time_b) as u64;
    Some((720000 * miles + seconds) / (2 * seconds))
}

/// Tells whether the average speed between two observations is more than
/// half a mile per hour over `limit`.
pub fn is_speeding(mile_a: u16, time_a: u32, mile_b: u16, time_b: u32, limit: u16) -> (speeding:
    bool)
    ensures
        speeding == speeding_between(mile_a, time_a, mile_b, time_b, limit),
{
    if time_a == time_b {
        return false;
    }
    let miles: u64 = miles_between(mile_a, mile_b) as u64;
    let seconds: u64 = seconds_between(time_a, time_b) as u64;
    let limit: u64 = limit as u64;
    assert((2 * limit + 1) * seconds <= 131071 * 4294967295) by (nonlinear_arith)
        requires
            limit <= 65535,
            seconds <= 4294967295,
    ;
    7200 * miles > (2 * limit + 1) * seconds
}

} // verus!
