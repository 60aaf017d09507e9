//! Arithmetic on times.

use vstd::prelude::*;

verus! {

/// `n`, or the nearest number that 64 bits with a sign can hold.
pub open spec fn saturated(n: int) -> i64 {
    if n < i64::MIN {
        i64::MIN
    } else if n > i64::MAX {
        i64::MAX
    } else {
        n as i64
    }
}

fn saturate(n: i128) -> (r: i64)
    ensures
        r == saturated(n as int),
{
    if n < i64::MIN as i128 {
        i64::MIN
    } else if n > i64::MAX as i128 {
        i64::MAX
    } else {
        n as i64
    }
}

/// `a - b`, or the nearest number that fits.
pub fn saturating_difference(a: i64, b: i64) -> (r: i64)
    ensures
        r == saturated(a - b),
{
    saturate(a as i128 - b as i128)
}

/// The microseconds of `seconds`, or the nearest number that fits.
pub fn saturating_micros(seconds: i64) -> (r: i64)
    ensures
        r == saturated(seconds * 1_000_000),
{
    saturate(seconds as i128 * 1_000_000)
}

/// The whole seconds of `micros`, rounded towards zero.
pub open spec fn whole_seconds(micros: int) -> int {
    if micros >= 0 {
        micros / 1_000_000
    } else {
        -((-micros) / 1_000_000)
    }
}

/// The whole seconds from `then` to `now`, rounded towards zero.
pub open spec fn elapsed_seconds(now: i64, then: i64) -> int {
    whole_seconds(saturated(now - then) as int)
}

/// The whole seconds from `then` to `now`, rounded towards zero.
pub fn seconds_since(now: i64, then: i64) -> (r: i64)
    ensures
        r == elapsed_seconds(now, then),
{
    let micros: i64 = saturating_difference(now, then);
    if micros >= 0 {
        micros / 1_000_000
    } else {
        let size: i128 = -(micros as i128);
        let whole: i128 = size / 1_000_000;
        (-whole) as i64
    }
}

} // verus!
