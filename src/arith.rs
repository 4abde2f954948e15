use vstd::prelude::*;

verus! {

/// Absolute value of a mathematical integer.
pub open spec fn abs(a: int) -> int {
    if a >= 0 {
        a
    } else {
        -a
    }
}

/// Integer division that truncates toward zero, as Rust's `/` does on signed integers.
pub open spec fn trunc_div(a: int, b: int) -> int {
    if (a >= 0) == (b > 0) || a == 0 {
        abs(a) / abs(b)
    } else {
        -(abs(a) / abs(b))
    }
}

/// Whether `v` can be held in an `i32`.
pub open spec fn fits_i32(v: int) -> bool {
    i32::MIN <= v <= i32::MAX
}

/// Truncating division on `i64`, computed over magnitudes.
pub fn trunc_div_i64(a: i64, b: i64) -> (q: i64)
    requires
        b != 0,
        a != i64::MIN,
        b != i64::MIN,
    ensures
        q == trunc_div(a as int, b as int),
{
    let ua: u64 = if a >= 0 {
        a as u64
    } else {
        (-a) as u64
    };
    let ub: u64 = if b >= 0 {
        b as u64
    } else {
        (-b) as u64
    };
    let uq: u64 = ua / ub;
    assert(uq <= ua) by (nonlinear_arith)
        requires
            uq == ua / ub,
            ub >= 1,
    ;
    if (a >= 0) == (b > 0) || a == 0 {
        uq as i64
    } else {
        -(uq as i64)
    }
}

} // verus!
