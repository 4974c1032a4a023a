//! Coercion of `string.format` arguments to integers: integer values pass,
//! numeric strings are read as decimal or hexadecimal integer literals,
//! and what only a floating-point reading can settle is left to the
//! caller.
use vstd::prelude::*;
use crate::error::{LibError, bad_argument, is_bad_argument_got};
use crate::format::{FormatArg, arg_type_name, arg_type_of, is_digit, starts_with_byte};
use crate::io_lib::all_ascii;
use crate::string_lib::{trim, trim_spec};

verus! {

/// The reading of a string as a number, as far as integer literals go.
#[derive(Debug, Clone, Copy, PartialEq, Eq, Structural)]
pub enum ParsedNumeric {
    /// A decimal or hexadecimal integer literal.
    Integer(i64),
    /// Not a number at all.
    NotNumeric,
    /// Neither an integer literal nor ruled out: a floating-point reading
    /// decides (this includes every string that is not ASCII).
    Undecided,
}

/// An ASCII hexadecimal digit.
pub open spec fn is_hex_digit(b: u8) -> bool {
    is_digit(b) || (97 <= b <= 102) || (65 <= b <= 70)
}

/// The value of a hexadecimal digit.
pub open spec fn hex_val(b: u8) -> nat {
    if is_digit(b) {
        (b - 48) as nat
    } else if 97 <= b {
        (b - 87) as nat
    } else {
        (b - 55) as nat
    }
}

/// The value of the digits `s` in base `base`.
pub open spec fn digits_value(s: Seq<u8>, base: nat) -> nat
    decreases s.len(),
{
    if s.len() == 0 {
        0
    } else {
        digits_value(s.drop_last(), base) * base + hex_val(s.last())
    }
}

/// A digit of the base: hexadecimal when `hex`, else decimal.
pub open spec fn base_digit(b: u8, hex: bool) -> bool {
    if hex {
        is_hex_digit(b)
    } else {
        is_digit(b)
    }
}

/// The base: 16 when `hex`, else 10.
pub open spec fn base_of(hex: bool) -> nat {
    if hex {
        16
    } else {
        10
    }
}

/// Is `d` a non-empty run of digits of the base?
pub open spec fn digit_run(d: Seq<u8>, hex: bool) -> bool {
    d.len() > 0 && forall|k: int| 0 <= k < d.len() ==> base_digit(#[trigger] d[k], hex)
}

/// What `u64::from_str_radix(s, 16)` reads: an optional `+`, then at
/// least one hexadecimal digit, with a value below 2^64.
pub open spec fn hex_u64(s: Seq<u8>) -> Option<nat> {
    let d = if starts_with_byte(s, 43) {
        s.skip(1)
    } else {
        s
    };
    if digit_run(d, true) && digits_value(d, 16) < 0x1_0000_0000_0000_0000 {
        Some(digits_value(d, 16))
    } else {
        None
    }
}

/// What `i64::from_str(s)` reads: an optional sign, then at least one
/// decimal digit, with a value in range.
pub open spec fn dec_i64(s: Seq<u8>) -> Option<int> {
    let neg = starts_with_byte(s, 45);
    let d = if neg || starts_with_byte(s, 43) {
        s.skip(1)
    } else {
        s
    };
    let v = digits_value(d, 10);
    if digit_run(d, false) && (if neg {
        v <= 0x8000_0000_0000_0000
    } else {
        v < 0x8000_0000_0000_0000
    }) {
        Some(
            if neg {
                -v
            } else {
                v as int
            },
        )
    } else {
        None
    }
}

/// The 64 bits `v` read as a signed integer, negated (wrapping) when `neg`.
pub open spec fn wrap_signed(v: nat, neg: bool) -> int {
    let signed: int = if v < 0x8000_0000_0000_0000 {
        v as int
    } else {
        v - 0x1_0000_0000_0000_0000
    };
    if neg && signed != -0x8000_0000_0000_0000 {
        -signed
    } else {
        signed
    }
}

/// Does `t` hold an `n` or `N`?  No float is read from such text (this
/// keeps out `nan` and `inf`).
pub open spec fn holds_n(t: Seq<u8>) -> bool {
    exists|k: int| 0 <= k < t.len() && (#[trigger] t[k] == 110 || t[k] == 78)
}

/// A numeric string read as an integer: surrounding white space is
/// trimmed; a sign then `0x` or `0X` introduces a hexadecimal literal
/// (whose failure means "not a number"); otherwise a decimal `i64`, and
/// failing that, text holding `n` or `N` is no number.
pub open spec fn numeric_text(s: Seq<u8>) -> ParsedNumeric {
    if !all_ascii(s) {
        ParsedNumeric::Undecided
    } else {
        let t = trim_spec(s);
        let neg = starts_with_byte(t, 45);
        let rest = if neg || starts_with_byte(t, 43) {
            t.skip(1)
        } else {
            t
        };
        if t.len() == 0 {
            ParsedNumeric::NotNumeric
        } else if rest.len() >= 2 && rest[0] == 48 && (rest[1] == 120 || rest[1] == 88) {
            match hex_u64(rest.skip(2)) {
                Some(v) => ParsedNumeric::Integer(wrap_signed(v, neg) as i64),
                None => ParsedNumeric::NotNumeric,
            }
        } else {
            match dec_i64(t) {
                Some(n) => ParsedNumeric::Integer(n as i64),
                None => if holds_n(t) {
                    ParsedNumeric::NotNumeric
                } else {
                    ParsedNumeric::Undecided
                },
            }
        }
    }
}

/// Read `d` as digits of the base, when it is a non-empty run of them
/// whose value fits in `u64`.
fn read_digits(d: &[u8], hex: bool) -> (r: Option<u64>)
    ensures
        match r {
            Some(v) => digit_run(d@, hex) && v == digits_value(d@, base_of(hex)),
            None => !(digit_run(d@, hex) && digits_value(d@, base_of(hex))
                < 0x1_0000_0000_0000_0000),
        },
{
    let n = d.len();
    if n == 0 {
        return None;
    }
    let base: u64 = if hex {
        16
    } else {
        10
    };
    let mut j: usize = 0;
    let mut v: u64 = 0;
    let mut fits = true;
    while j < n
        invariant
            n == d@.len(),
            base == base_of(hex),
            j <= n,
            forall|k: int| 0 <= k < j ==> base_digit(#[trigger] d@[k], hex),
            fits ==> v == digits_value(d@.take(j as int), base_of(hex)),
            !fits ==> digits_value(d@.take(j as int), base_of(hex)) >= 0x1_0000_0000_0000_0000,
        decreases n - j,
    {
        let b = d[j];
        let ok = if hex {
            (b >= 48 && b <= 57) || (b >= 97 && b <= 102) || (b >= 65 && b <= 70)
        } else {
            b >= 48 && b <= 57
        };
        if !ok {
            assert(!base_digit(d@[j as int], hex));
            return None;
        }
        let x: u64 = if b <= 57 {
            (b - 48) as u64
        } else if b >= 97 {
            (b - 87) as u64
        } else {
            (b - 55) as u64
        };
        let ghost prev = digits_value(d@.take(j as int), base_of(hex));
        proof {
            assert(d@.take(j + 1).drop_last() =~= d@.take(j as int));
            assert(digits_value(d@.take(j + 1), base_of(hex)) == prev * base_of(hex) + x);
            assert(prev * base_of(hex) + x >= prev) by (nonlinear_arith)
                requires
                    base_of(hex) >= 1,
            ;
        }
        if fits {
            match v.checked_mul(base) {
                Some(t) => match t.checked_add(x) {
                    Some(u) => {
                        v = u;
                    },
                    None => {
                        fits = false;
                    },
                },
                None => {
                    fits = false;
                    assert(prev * base_of(hex) + x >= 0x1_0000_0000_0000_0000);
                },
            }
        }
        j = j + 1;
    }
    assert(d@.take(n as int) =~= d@);
    if fits {
        Some(v)
    } else {
        None
    }
}

/// `u64::from_str_radix(s, 16)`.
fn read_hex_u64(s: &[u8]) -> (r: Option<u64>)
    ensures
        match hex_u64(s@) {
            Some(v) => r == Some(v as u64),
            None => r is None,
        },
{
    let n = s.len();
    let d: &[u8] = if n > 0 && s[0] == 43 {
        &s[1..n]
    } else {
        &s[0..n]
    };
    assert(d@ =~= (if starts_with_byte(s@, 43) {
        s@.skip(1)
    } else {
        s@
    }));
    read_digits(d, true)
}

/// `i64::from_str(s)`.
fn read_dec_i64(s: &[u8]) -> (r: Option<i64>)
    ensures
        match dec_i64(s@) {
            Some(v) => r == Some(v as i64),
            None => r is None,
        },
{
    let n = s.len();
    let neg = n > 0 && s[0] == 45;
    let d: &[u8] = if neg || (n > 0 && s[0] == 43) {
        &s[1..n]
    } else {
        &s[0..n]
    };
    assert(d@ =~= (if neg || starts_with_byte(s@, 43) {
        s@.skip(1)
    } else {
        s@
    }));
    match read_digits(d, false) {
        None => None,
        Some(v) => {
            if neg {
                if v < 0x8000_0000_0000_0000 {
                    Some(-(v as i64))
                } else if v == 0x8000_0000_0000_0000 {
                    Some(i64::MIN)
                } else {
                    None
                }
            } else if v < 0x8000_0000_0000_0000 {
                Some(v as i64)
            } else {
                None
            }
        },
    }
}

/// The 64 bits `v` as a signed integer, negated (wrapping) when `neg`.
fn wrap_to_i64(v: u64, neg: bool) -> (r: i64)
    ensures
        r as int == wrap_signed(v as nat, neg),
{
    let x: i64 = if v < 0x8000_0000_0000_0000 {
        v as i64
    } else {
        ((v - 0x8000_0000_0000_0000) as i64) + i64::MIN
    };
    if neg && x != i64::MIN {
        -x
    } else {
        x
    }
}

/// Does `t` hold an `n` or `N`?
fn find_n(t: &[u8]) -> (r: bool)
    ensures
        r == holds_n(t@),
{
    let n = t.len();
    let mut i: usize = 0;
    while i < n
        invariant
            n == t@.len(),
            i <= n,
            forall|k: int| 0 <= k < i ==> !(#[trigger] t@[k] == 110 || t@[k] == 78),
        decreases n - i,
    {
        if t[i] == 110 || t[i] == 78 {
            return true;
        }
        i = i + 1;
    }
    false
}

/// Read a numeric string as an integer, as far as integer literals go.
pub fn parse_numeric_string(s: &[u8]) -> (r: ParsedNumeric)
    ensures
        r == numeric_text(s@),
{
    let n = s.len();
    let mut i: usize = 0;
    while i < n
        invariant
            n == s@.len(),
            i <= n,
            forall|k: int| 0 <= k < i ==> #[trigger] s@[k] < 128,
        decreases n - i,
    {
        if s[i] >= 128 {
            assert(!all_ascii(s@));
            return ParsedNumeric::Undecided;
        }
        i = i + 1;
    }
    assert(all_ascii(s@));
    let t = trim(s);
    let tn = t.len();
    if tn == 0 {
        return ParsedNumeric::NotNumeric;
    }
    let neg = t[0] == 45;
    let rest: &[u8] = if neg || t[0] == 43 {
        &t.as_slice()[1..tn]
    } else {
        &t.as_slice()[0..tn]
    };
    let ghost tv = t@;
    assert(rest@ =~= (if neg || starts_with_byte(tv, 43) {
        tv.skip(1)
    } else {
        tv
    }));
    let rn = rest.len();
    if rn >= 2 && rest[0] == 48 && (rest[1] == 120 || rest[1] == 88) {
        let digits: &[u8] = &rest[2..rn];
        assert(digits@ =~= rest@.skip(2));
        match read_hex_u64(digits) {
            Some(v) => ParsedNumeric::Integer(wrap_to_i64(v, neg)),
            None => ParsedNumeric::NotNumeric,
        }
    } else {
        match read_dec_i64(t.as_slice()) {
            Some(x) => ParsedNumeric::Integer(x),
            None => {
                if find_n(t.as_slice()) {
                    ParsedNumeric::NotNumeric
                } else {
                    ParsedNumeric::Undecided
                }
            },
        }
    }
}

/// How an argument reads as an integer.
#[derive(Debug, Clone, Copy, PartialEq, Eq, Structural)]
pub enum IntReading {
    Int(i64),
    /// A float, or a string that only a floating-point reading settles.
    Undecided,
    NotNumber,
}

/// How an argument reads as an integer: integers as themselves, strings
/// by `numeric_text`, floats left to a floating-point reading, anything
/// else not a number.
pub open spec fn int_reading(a: FormatArg) -> IntReading {
    match a {
        FormatArg::Integer(n) => IntReading::Int(n),
        FormatArg::Float => IntReading::Undecided,
        FormatArg::Str(t) => match numeric_text(t@) {
            ParsedNumeric::Integer(n) => IntReading::Int(n),
            ParsedNumeric::NotNumeric => IntReading::NotNumber,
            ParsedNumeric::Undecided => IntReading::Undecided,
        },
        _ => IntReading::NotNumber,
    }
}

/// Coerce the argument at 1-based position `pos` of `func` to an integer:
/// `Ok(Some(n))` for an integer, `Ok(None)` where a floating-point reading
/// decides, and a `bad argument` error for what is not a number.
pub fn coerce_to_integer(a: &FormatArg, pos: usize, func: &str) -> (r: Result<Option<i64>, LibError>)
    ensures
        match int_reading(*a) {
            IntReading::Int(n) => r matches Ok(Some(m)) && m == n,
            IntReading::Undecided => r matches Ok(None),
            IntReading::NotNumber => r matches Err(e) && is_bad_argument_got(
                e,
                pos,
                func@,
                "number"@,
                arg_type_of(*a),
            ),
        },
{
    match a {
        FormatArg::Integer(n) => Ok(Some(*n)),
        FormatArg::Float => Ok(None),
        FormatArg::Str(t) => match parse_numeric_string(t.as_slice()) {
            ParsedNumeric::Integer(n) => Ok(Some(n)),
            ParsedNumeric::NotNumeric => Err(
                bad_argument(pos, func, "number", arg_type_name(a)),
            ),
            ParsedNumeric::Undecided => Ok(None),
        },
        _ => Err(bad_argument(pos, func, "number", arg_type_name(a))),
    }
}

/// Can the argument be read as a float at all?  Integers, floats and
/// strings can (a string by a floating-point reading that is the
/// caller's); anything else cannot.
pub open spec fn float_candidate(a: FormatArg) -> bool {
    a is Integer || a is Float || a is Str
}

/// Check that the argument at position `pos` of `func` can be read as a
/// float, else the `bad argument` error.
pub fn check_float_arg(a: &FormatArg, pos: usize, func: &str) -> (r: Result<(), LibError>)
    ensures
        r is Ok <==> float_candidate(*a),
        r matches Err(e) ==> is_bad_argument_got(e, pos, func@, "number"@, arg_type_of(*a)),
{
    match a {
        FormatArg::Integer(_) | FormatArg::Float | FormatArg::Str(_) => Ok(()),
        _ => Err(bad_argument(pos, func, "number", arg_type_name(a))),
    }
}

} // verus!
