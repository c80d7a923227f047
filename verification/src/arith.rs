//! Saturating arithmetic on `i64`, for cost estimates.
use vstd::prelude::*;

verus! {

/// `x` clamped to the range of `i64`.
pub open spec fn clamp_i64(x: int) -> i64 {
    if x > i64::MAX {
        i64::MAX
    } else if x < i64::MIN {
        i64::MIN
    } else {
        x as i64
    }
}

/// Division rounding towards zero, as `i64` division does.
pub open spec fn trunc_div(a: int, b: int) -> int {
    let q = abs_int(a) / abs_int(b);
    if (a >= 0) == (b >= 0) {
        q
    } else {
        -q
    }
}

pub open spec fn abs_int(a: int) -> int {
    if a >= 0 {
        a
    } else {
        -a
    }
}

pub fn sat_add(a: i64, b: i64) -> (r: i64)
    ensures
        r == clamp_i64(a + b),
{
    let s: i128 = a as i128 + b as i128;
    if s > i64::MAX as i128 {
        i64::MAX
    } else if s < i64::MIN as i128 {
        i64::MIN
    } else {
        s as i64
    }
}

pub fn sat_sub(a: i64, b: i64) -> (r: i64)
    ensures
        r == clamp_i64(a - b),
{
    let s: i128 = a as i128 - b as i128;
    if s > i64::MAX as i128 {
        i64::MAX
    } else if s < i64::MIN as i128 {
        i64::MIN
    } else {
        s as i64
    }
}

pub fn sat_mul(a: i64, b: i64) -> (r: i64)
    ensures
        r == clamp_i64(a * b),
{
    proof {
        assert(-0x4000_0000_0000_0000_0000_0000_0000_0000 <= a * b <= 0x4000_0000_0000_0000_0000_0000_0000_0000)
            by (nonlinear_arith)
            requires
                i64::MIN <= a <= i64::MAX,
                i64::MIN <= b <= i64::MAX,
        ;
    }
    let s: i128 = a as i128 * b as i128;
    if s > i64::MAX as i128 {
        i64::MAX
    } else if s < i64::MIN as i128 {
        i64::MIN
    } else {
        s as i64
    }
}

/// Division rounding towards zero; zero when `b` is zero, and clamped.
pub fn sat_div(a: i64, b: i64) -> (r: i64)
    ensures
        b != 0 ==> r == clamp_i64(trunc_div(a as int, b as int)),
        b == 0 ==> r == 0,
{
    if b == 0 {
        return 0;
    }
    let aa: u128 = if a >= 0 { a as u128 } else { (-(a as i128)) as u128 };
    let bb: u128 = if b >= 0 { b as u128 } else { (-(b as i128)) as u128 };
    let q: u128 = aa / bb;
    proof {
        assert(q <= aa) by (nonlinear_arith)
            requires
                bb >= 1,
                q == aa / bb,
        ;
    }
    let s: i128 = if (a >= 0) == (b >= 0) { q as i128 } else { -(q as i128) };
    if s > i64::MAX as i128 {
        i64::MAX
    } else if s < i64::MIN as i128 {
        i64::MIN
    } else {
        s as i64
    }
}

} // verus!
