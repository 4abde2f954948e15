use vstd::prelude::*;

use vstd::arithmetic::div_mod::{lemma_div_pos_is_pos, lemma_fundamental_div_mod, lemma_mod_bound};

use crate::arith::{abs, trunc_div, trunc_div_i64};

verus! {

/// A raw device value as a percentage of `max`, rounded to nearest by adding
/// half the divisor before the truncating division.
pub open spec fn raw_to_percentage(max: int, value: int) -> int {
    trunc_div(value * 100 + max / 2, max)
}

/// A percentage of `max` as a raw device value, rounded to nearest by adding
/// half the divisor before the truncating division.
pub open spec fn percentage_to_raw(max: int, percentage: int) -> int {
    trunc_div(percentage * max + 50, 100)
}

/// Converts the raw value `value` of a device whose maximum is `max` into a percentage.
pub fn to_percentage(max: i32, value: i32) -> (r: i64)
    requires
        max > 0,
    ensures
        r == raw_to_percentage(max as int, value as int),
{
    let half: i64 = (max as u32 / 2) as i64;
    let n: i64 = value as i64 * 100 + half;
    trunc_div_i64(n, max as i64)
}

/// Converts a percentage of `max` into a raw device value.
pub fn to_value(max: i32, percentage: i64) -> (r: i64)
    requires
        max > 0,
        i64::MIN <= percentage * max,
        percentage * max + 50 <= i64::MAX,
    ensures
        r == percentage_to_raw(max as int, percentage as int),
{
    trunc_div_i64(percentage * max as i64 + 50, 100)
}

/// Converting a percentage in `0..=100` to a raw value and back is off by at
/// most one, for every maximum of at least 34. (Below that the bound fails:
/// with a maximum of 1, 49% becomes 0 and comes back as 0%.)
pub proof fn lemma_round_trip(max: int, p: int)
    requires
        max >= 34,
        0 <= p <= 100,
    ensures
        abs(raw_to_percentage(max, percentage_to_raw(max, p)) - p) <= 1,
{
    let a = p * max + 50;
    assert(a >= 50) by (nonlinear_arith)
        requires
            a == p * max + 50,
            p >= 0,
            max >= 0,
    ;
    let r = a / 100;
    lemma_div_pos_is_pos(a, 100);
    lemma_fundamental_div_mod(a, 100);
    lemma_mod_bound(a, 100);
    assert(percentage_to_raw(max, p) == r);
    let h = max / 2;
    lemma_fundamental_div_mod(max, 2);
    lemma_mod_bound(max, 2);
    let t = 100 * r + h;
    assert(t >= 0);
    let back = t / max;
    lemma_div_pos_is_pos(t, max);
    lemma_fundamental_div_mod(t, max);
    lemma_mod_bound(t, max);
    assert(raw_to_percentage(max, r) == back);
    assert(max * (p + 2) == p * max + 2 * max) by (nonlinear_arith);
    assert(max * (back + 1) == max * back + max) by (nonlinear_arith);
    assert(max * (p - 1) == p * max - max) by (nonlinear_arith);
    assert(max * back < max * (p + 2));
    assert(back < p + 2) by (nonlinear_arith)
        requires
            max > 0,
            max * back < max * (p + 2),
    ;
    assert(max * (back + 1) > max * (p - 1));
    assert(back + 1 > p - 1) by (nonlinear_arith)
        requires
            max > 0,
            max * (back + 1) > max * (p - 1),
    ;
}

} // verus!
