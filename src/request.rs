use vstd::prelude::*;

use vstd::string::{StrSliceExecFns, StringExecFns};

use crate::arith::fits_i32;
use crate::convert::{percentage_to_raw, raw_to_percentage, to_percentage, to_value};

verus! {

/// The sign of a request: absolute, increase or decrease.
#[derive(Clone, Copy, Debug, PartialEq, Eq, Structural)]
pub enum Prefix {
    Absolute,
    Plus,
    Minus,
}

/// The unit of a request: raw device units or a percentage of the maximum.
#[derive(Clone, Copy, Debug, PartialEq, Eq, Structural)]
pub enum Type {
    Number,
    Percentage,
}

/// A requested brightness: sign, unit and magnitude.
#[derive(Clone, Copy, Debug, PartialEq, Eq, Structural)]
pub struct Value {
    pub prefix: Prefix,
    pub kind: Type,
    pub num: i32,
}

/// Why a request text was rejected.
#[derive(Debug)]
pub enum ValueError {
    /// The text is empty.
    Empty,
    /// What is left after the sign and the unit is no `i32`; holds the
    /// number parser's own message.
    Number(String),
}

pub open spec fn is_digit(c: char) -> bool {
    '0' <= c <= '9'
}

/// The value of a string of decimal digits.
pub open spec fn digits_value(s: Seq<char>) -> int
    decreases s.len(),
{
    if s.len() == 0 {
        0
    } else {
        digits_value(s.drop_last()) * 10 + (s.last() as u32 - '0' as u32)
    }
}

pub open spec fn all_digits(s: Seq<char>) -> bool {
    s.len() > 0 && forall|i: int| 0 <= i < s.len() ==> is_digit(#[trigger] s[i])
}

/// The integer written as an optional `+` or `-` followed by one or more
/// decimal digits, if `s` has that form.
pub open spec fn decimal_value(s: Seq<char>) -> Option<int> {
    if s.len() > 0 && (s[0] == '+' || s[0] == '-') && all_digits(s.drop_first()) {
        if s[0] == '-' {
            Some(-digits_value(s.drop_first()))
        } else {
            Some(digits_value(s.drop_first()))
        }
    } else if all_digits(s) {
        Some(digits_value(s))
    } else {
        None
    }
}

/// The `i32` that `s` spells in decimal, if any.
pub open spec fn decimal_i32(s: Seq<char>) -> Option<i32> {
    match decimal_value(s) {
        Some(v) => if fits_i32(v) {
            Some(v as i32)
        } else {
            None
        },
        None => None,
    }
}

/// Relies on `str::parse::<i32>` (`i32::from_str`): it accepts exactly an
/// optional `+` or `-` followed by one or more ASCII digits whose value is
/// in the `i32` range, and fails on anything else. The error is handed on
/// as its message.
#[verifier::external_body]
pub(crate) fn parse_i32(s: &str) -> (r: Result<i32, String>)
    ensures
        match decimal_i32(s@) {
            Some(v) => r == Ok::<i32, String>(v),
            None => r is Err,
        },
{
    s.parse::<i32>().map_err(|e| e.to_string())
}

/// The sign of a request text and what follows it.
pub open spec fn split_prefix(s: Seq<char>) -> (Prefix, Seq<char>) {
    if s.len() > 0 && s[0] == '+' {
        (Prefix::Plus, s.drop_first())
    } else if s.len() > 0 && s[0] == '-' {
        (Prefix::Minus, s.drop_first())
    } else {
        (Prefix::Absolute, s)
    }
}

/// The unit of a request text after its sign, and the number before it.
pub open spec fn split_unit(s: Seq<char>) -> (Type, Seq<char>) {
    if s.len() > 0 && s.last() == '%' {
        (Type::Percentage, s.drop_last())
    } else {
        (Type::Number, s)
    }
}

/// The request that a non-empty text spells, if its number is an `i32`.
pub open spec fn parsed_value(s: Seq<char>) -> Option<Value> {
    let (prefix, rest) = split_prefix(s);
    let (kind, body) = split_unit(rest);
    match decimal_i32(body) {
        Some(num) => Some(Value { prefix, kind, num }),
        None => None,
    }
}

impl ValueError {
    /// A sentence that describes the error.
    pub fn message(&self) -> (r: String)
        ensures
            self is Empty ==> r@ == "the value is empty"@,
            self matches ValueError::Number(m) ==> r@ == "parsing error: "@ + m@,
    {
        match self {
            ValueError::Empty => String::from_str("the value is empty"),
            ValueError::Number(m) => String::from_str("parsing error: ").concat(m.as_str()),
        }
    }
}

impl Value {
    /// Reads a request: an optional leading `+` or `-`, an integer, and an
    /// optional trailing `%`.
    pub fn parse(s: &str) -> (r: Result<Value, ValueError>)
        ensures
            s@.len() == 0 ==> r == Err::<Value, ValueError>(ValueError::Empty),
            s@.len() > 0 ==> match parsed_value(s@) {
                Some(v) => r == Ok::<Value, ValueError>(v),
                None => r is Err && r->Err_0 is Number,
            },
    {
        let n = s.unicode_len();
        if n == 0 {
            return Err(ValueError::Empty);
        }
        let c = s.get_char(0);
        let (prefix, rest) = if c == '+' {
            (Prefix::Plus, s.substring_char(1, n))
        } else if c == '-' {
            (Prefix::Minus, s.substring_char(1, n))
        } else {
            (Prefix::Absolute, s)
        };
        assert(rest@ == split_prefix(s@).1);
        let m = rest.unicode_len();
        let (kind, body) = if m > 0 && rest.get_char(m - 1) == '%' {
            (Type::Percentage, rest.substring_char(0, m - 1))
        } else {
            (Type::Number, rest)
        };
        assert(body@ == split_unit(rest@).1);
        match parse_i32(body) {
            Ok(num) => Ok(Value { prefix, kind, num }),
            Err(e) => Err(ValueError::Number(e)),
        }
    }
}

impl std::str::FromStr for Value {
    type Err = String;

    /// Reads a request as `Value::parse` does, the error given as its message.
    fn from_str(s: &str) -> (r: Result<Value, String>)
        ensures
            s@.len() == 0 ==> r is Err && r->Err_0@ == "the value is empty"@,
            s@.len() > 0 ==> match parsed_value(s@) {
                Some(v) => r == Ok::<Value, String>(v),
                None => r is Err && r->Err_0@.subrange(0, 15) == "parsing error: "@,
            },
    {
        match Value::parse(s) {
            Ok(v) => Ok(v),
            Err(e) => {
                let m = e.message();
                proof {
                    reveal_strlit("parsing error: ");
                    if e is Number {
                        assert(m@.subrange(0, 15) =~= "parsing error: "@);
                    }
                }
                Err(m)
            },
        }
    }
}

/// The target that a request asks for, before it is capped at `max`.
pub open spec fn requested_target(v: Value, current: int, max: int) -> int {
    let delta: int = if v.prefix == Prefix::Minus {
        -v.num
    } else {
        v.num as int
    };
    if v.prefix == Prefix::Absolute {
        match v.kind {
            Type::Number => v.num as int,
            Type::Percentage => percentage_to_raw(max, v.num as int),
        }
    } else {
        match v.kind {
            Type::Number => current + delta,
            Type::Percentage => percentage_to_raw(
                max,
                raw_to_percentage(max, current) + delta,
            ),
        }
    }
}

/// The final raw target of a request: the requested target capped at `max`.
/// There is no lower cap: a negative target is passed on as it is.
pub open spec fn resolved_target(v: Value, current: int, max: int) -> int {
    let t = requested_target(v, current, max);
    if t > max {
        max
    } else {
        t
    }
}

/// Resolves a request against the device's current value and maximum.
pub fn resolve(value: Value, current: i32, max: i32) -> (r: i64)
    requires
        current >= 0,
        max > 0,
    ensures
        r == resolved_target(value, current as int, max as int),
{
    let num: i64 = value.num as i64;
    let signed: i64 = if value.prefix == Prefix::Minus {
        -num
    } else {
        num
    };
    let t: i64 = match value.prefix {
        Prefix::Absolute => match value.kind {
            Type::Number => num,
            Type::Percentage => {
                assert(-0x4000_0000_0000_0000 <= num * max <= 0x4000_0000_0000_0000) by (nonlinear_arith)
                    requires
                        -0x8000_0000 <= num < 0x8000_0000,
                        0 < max < 0x8000_0000,
                ;
                to_value(max, num)
            },
        },
        _ => match value.kind {
            Type::Number => current as i64 + signed,
            Type::Percentage => {
                let pct: i64 = to_percentage(max, current);
                let ghost a: int = current * 100 + max / 2;
                assert(pct == a / (max as int));
                assert(0 <= pct * max <= a) by (nonlinear_arith)
                    requires
                        pct == a / (max as int),
                        a >= 0,
                        max > 0,
                ;
                assert(-0x4000_0000_0000_0000 <= signed * max <= 0x4000_0000_0000_0000) by (nonlinear_arith)
                    requires
                        -0x8000_0000 <= signed <= 0x8000_0000,
                        0 < max < 0x8000_0000,
                ;
                let q: i64 = pct + signed;
                assert(q * max == pct * max + signed * max) by (nonlinear_arith)
                    requires
                        q == pct + signed,
                ;
                to_value(max, q)
            },
        },
    };
    if t > max as i64 {
        max as i64
    } else {
        t
    }
}

/// The resolved target never exceeds the maximum; a requested target above
/// the maximum becomes the maximum, and any other, negative ones included,
/// is kept unchanged: there is no lower cap.
pub proof fn lemma_resolve_caps_above_only(v: Value, current: int, max: int)
    ensures
        resolved_target(v, current, max) <= max,
        requested_target(v, current, max) > max ==> resolved_target(v, current, max) == max,
        requested_target(v, current, max) <= max ==> resolved_target(v, current, max)
            == requested_target(v, current, max),
{
}

} // verus!
