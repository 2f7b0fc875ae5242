//! Saturating and clamping integer helpers with exact contracts.

use vstd::prelude::*;

verus! {

/// `v` saturated into the `i32` range.
pub open spec fn sat_i32(v: int) -> i32 {
    if v > i32::MAX {
        i32::MAX
    } else if v < i32::MIN {
        i32::MIN
    } else {
        v as i32
    }
}

/// `v` read as an `i32`, or `i32::MAX` when it does not fit.
pub open spec fn u32_to_i32_or_max(v: u32) -> i32 {
    if v > i32::MAX {
        i32::MAX
    } else {
        v as i32
    }
}

/// `v` in `[lo, hi]`, for `lo <= hi`.
pub open spec fn clamp_i32(v: i32, lo: i32, hi: i32) -> i32 {
    if v < lo {
        lo
    } else if v > hi {
        hi
    } else {
        v
    }
}

/// `i32::saturating_add`.
pub fn saturating_add_i32(a: i32, b: i32) -> (r: i32)
    ensures
        r == sat_i32(a + b),
{
    let s: i64 = a as i64 + b as i64;
    if s > i32::MAX as i64 {
        i32::MAX
    } else if s < i32::MIN as i64 {
        i32::MIN
    } else {
        s as i32
    }
}

/// `i32::saturating_sub`.
pub fn saturating_sub_i32(a: i32, b: i32) -> (r: i32)
    ensures
        r == sat_i32(a - b),
{
    let s: i64 = a as i64 - b as i64;
    if s > i32::MAX as i64 {
        i32::MAX
    } else if s < i32::MIN as i64 {
        i32::MIN
    } else {
        s as i32
    }
}

/// `i32::try_from(v).unwrap_or(i32::MAX)`.
pub fn u32_to_i32_saturating(v: u32) -> (r: i32)
    ensures
        r == u32_to_i32_or_max(v),
{
    if v > i32::MAX as u32 {
        i32::MAX
    } else {
        v as i32
    }
}

/// `i32::clamp`; `lo <= hi` is what keeps the std version from panicking.
pub fn clamp_to(v: i32, lo: i32, hi: i32) -> (r: i32)
    requires
        lo <= hi,
    ensures
        r == clamp_i32(v, lo, hi),
        lo <= r <= hi,
{
    if v < lo {
        lo
    } else if v > hi {
        hi
    } else {
        v
    }
}

} // verus!
