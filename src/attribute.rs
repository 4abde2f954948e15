use vstd::prelude::*;

use crate::request::{decimal_i32, parse_i32};

verus! {

/// Whether `c` has the Unicode `White_Space` property, as `char::is_whitespace` tests.
pub open spec fn is_white_space(c: char) -> bool {
    let u = c as u32;
    ||| 0x9 <= u <= 0xd
    ||| u == 0x20
    ||| u == 0x85
    ||| u == 0xa0
    ||| u == 0x1680
    ||| 0x2000 <= u <= 0x200a
    ||| u == 0x2028
    ||| u == 0x2029
    ||| u == 0x202f
    ||| u == 0x205f
    ||| u == 0x3000
}

/// The text without its leading whitespace.
pub open spec fn trim_start(s: Seq<char>) -> Seq<char>
    decreases s.len(),
{
    if s.len() > 0 && is_white_space(s[0]) {
        trim_start(s.drop_first())
    } else {
        s
    }
}

/// The text without its trailing whitespace.
pub open spec fn trim_end(s: Seq<char>) -> Seq<char>
    decreases s.len(),
{
    if s.len() > 0 && is_white_space(s.last()) {
        trim_end(s.drop_last())
    } else {
        s
    }
}

/// The text without its leading and trailing whitespace.
pub open spec fn trimmed(s: Seq<char>) -> Seq<char> {
    trim_end(trim_start(s))
}

/// Relies on `str::trim`: the text with leading and trailing characters of
/// the Unicode `White_Space` property removed.
#[verifier::external_body]
fn trim(s: &str) -> (r: &str)
    ensures
        r@ == trimmed(s@),
{
    s.trim()
}

/// Reads an integer written in decimal, with an optional sign, and nothing else.
pub fn parse_number(s: &str) -> (r: Option<i32>)
    ensures
        r == decimal_i32(s@),
{
    match parse_i32(s) {
        Ok(v) => Some(v),
        Err(_) => None,
    }
}

/// The value written to a device: negative targets are raised to 0, which
/// is the only lower bound anywhere on the way from request to device.
pub fn floor_at_zero(v: i64) -> (r: i64)
    ensures
        r == (if v < 0 {
            0
        } else {
            v
        }),
{
    if v < 0 {
        0
    } else {
        v
    }
}

/// Reads the integer that a device attribute file holds, surrounding
/// whitespace allowed.
pub fn parse_attribute(s: &str) -> (r: Option<i32>)
    ensures
        r == decimal_i32(trimmed(s@)),
{
    parse_number(trim(s))
}

} // verus!
