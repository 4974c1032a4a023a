//! `string.format`: C-style conversion specifications, padding, integer
//! renderings in several bases, quoting, and a step-wise formatter that
//! hands the conversions it cannot perform itself (floating point,
//! addresses) back to its caller.
use vstd::prelude::*;
use crate::byte_str::{append_all, append_range, copy_range};
use crate::decimal::{append_digits, ascii_text, decimal_string, int_decimal, int_text, nat_digits, push_decimal, push_digits};
use crate::coerce::{IntReading, check_float_arg, coerce_to_integer, float_candidate, int_reading};
use crate::error::{LibError, is_bad_argument_got, is_runtime, is_runtime_at, runtime_error, runtime_error_with};
use crate::io_lib::{lossy_text, utf8_lossy};
use vstd::utf8::encode_utf8;

verus! {

/// A flag byte of a conversion specification: `-`, `+`, space, `#`, `0`.
pub open spec fn is_flag(b: u8) -> bool {
    b == 45 || b == 43 || b == 32 || b == 35 || b == 48
}

/// An ASCII decimal digit.
pub open spec fn is_digit(b: u8) -> bool {
    48 <= b <= 57
}

/// The first index at or after `i` that does not hold a flag byte.
pub open spec fn skip_flags(s: Seq<u8>, i: int) -> int
    decreases s.len() - i,
{
    if 0 <= i < s.len() && is_flag(s[i]) {
        skip_flags(s, i + 1)
    } else {
        i
    }
}

/// The first index at or after `i` that does not hold a decimal digit.
pub open spec fn skip_digits(s: Seq<u8>, i: int) -> int
    decreases s.len() - i,
{
    if 0 <= i < s.len() && is_digit(s[i]) {
        skip_digits(s, i + 1)
    } else {
        i
    }
}

/// The value of the decimal digits `s[a..b]`.
pub open spec fn dec_value(s: Seq<u8>, a: int, b: int) -> nat
    decreases b - a,
{
    if b <= a {
        0
    } else {
        dec_value(s, a, b - 1) * 10 + (s[b - 1] - 48) as nat
    }
}

/// `v`, or `usize::MAX` when `v` does not fit.
pub open spec fn saturate(v: nat) -> usize {
    if v <= usize::MAX {
        v as usize
    } else {
        usize::MAX
    }
}

/// Does `s[a..b]` hold the byte `f`?
pub open spec fn holds_byte(s: Seq<u8>, a: int, b: int, f: u8) -> bool
    decreases b - a,
{
    if b <= a {
        false
    } else {
        holds_byte(s, a, b - 1, f) || s[b - 1] == f
    }
}

/// The parsed flags, width and precision of a conversion specification.
#[derive(Clone, Copy, Debug)]
pub struct FormatSpec {
    pub width: usize,
    pub left_align: bool,
    pub zero_pad: bool,
    pub plus: bool,
    pub space: bool,
    pub alt: bool,
    pub precision: Option<usize>,
}

/// The specification `s` (which starts with its `%`) read as flags, a
/// width and an optional precision; numbers too large for `usize` are
/// taken as `usize::MAX`.
pub open spec fn spec_of(s: Seq<u8>) -> FormatSpec {
    let fe = skip_flags(s, 1);
    let we = skip_digits(s, fe);
    FormatSpec {
        width: saturate(dec_value(s, fe, we)),
        left_align: holds_byte(s, 1, fe, 45),
        zero_pad: holds_byte(s, 1, fe, 48),
        plus: holds_byte(s, 1, fe, 43),
        space: holds_byte(s, 1, fe, 32),
        alt: holds_byte(s, 1, fe, 35),
        precision: if 0 <= we < s.len() && s[we] == 46 {
            Some(saturate(dec_value(s, we + 1, skip_digits(s, we + 1))))
        } else {
            None
        },
    }
}

proof fn lemma_skip_flags(s: Seq<u8>, i: int)
    requires
        1 <= i,
    ensures
        i <= skip_flags(s, i),
        skip_flags(s, i) <= s.len() || skip_flags(s, i) == i,
    decreases s.len() - i,
{
    if 0 <= i < s.len() && is_flag(s[i]) {
        lemma_skip_flags(s, i + 1);
    }
}

proof fn lemma_skip_digits(s: Seq<u8>, i: int)
    requires
        0 <= i,
    ensures
        i <= skip_digits(s, i),
        skip_digits(s, i) <= s.len() || skip_digits(s, i) == i,
        forall|k: int| i <= k < skip_digits(s, i) ==> is_digit(#[trigger] s[k]),
    decreases s.len() - i,
{
    if 0 <= i < s.len() && is_digit(s[i]) {
        lemma_skip_digits(s, i + 1);
    }
}

proof fn lemma_saturate_step(big: nat, v: usize, d: nat)
    requires
        d <= 9,
        v == saturate(big),
    ensures
        v > (usize::MAX - d) / 10 ==> saturate(big * 10 + d) == usize::MAX,
        v <= (usize::MAX - d) / 10 ==> saturate(big * 10 + d) == v * 10 + d,
{
    let m = usize::MAX as int;
    if big <= m {
        assert(v == big);
        if v > (m - d) / 10 {
            assert(v * 10 + d > m) by (nonlinear_arith)
                requires
                    v > (m - d) / 10,
                    d <= 9,
                    m > 9,
            ;
        } else {
            assert(v * 10 + d <= m) by (nonlinear_arith)
                requires
                    v <= (m - d) / 10,
                    d <= 9,
                    m > 9,
            ;
        }
    } else {
        assert(big * 10 + d >= big) by (nonlinear_arith);
    }
}

/// Read the digits from `i` on, saturating at `usize::MAX`.
fn read_number(s: &[u8], i: usize) -> (r: (usize, usize))
    requires
        i <= s@.len(),
    ensures
        r.1 == skip_digits(s@, i as int),
        r.0 == saturate(dec_value(s@, i as int, r.1 as int)),
{
    let n = s.len();
    let mut j = i;
    let mut v: usize = 0;
    while j < n && s[j] >= 48 && s[j] <= 57
        invariant
            n == s@.len(),
            i <= j <= n,
            skip_digits(s@, j as int) == skip_digits(s@, i as int),
            v == saturate(dec_value(s@, i as int, j as int)),
        decreases n - j,
    {
        let d = (s[j] - 48) as usize;
        proof {
            assert(dec_value(s@, i as int, j + 1) == dec_value(s@, i as int, j as int) * 10 + d);
            lemma_saturate_step(dec_value(s@, i as int, j as int), v, d as nat);
        }
        if v > (usize::MAX - d) / 10 {
            v = usize::MAX;
        } else {
            v = v * 10 + d;
        }
        j = j + 1;
    }
    (v, j)
}

/// Parse a conversion specification such as `%-08.3d`: flags, width and
/// precision, reading from just after the leading `%`.
pub fn parse_format_spec(spec: &[u8]) -> (r: FormatSpec)
    ensures
        r == spec_of(spec@),
{
    let n = spec.len();
    let mut i: usize = 1;
    let mut left_align = false;
    let mut zero_pad = false;
    let mut plus = false;
    let mut space = false;
    let mut alt = false;
    while i < n && (spec[i] == 45 || spec[i] == 48 || spec[i] == 43 || spec[i] == 32 || spec[i] == 35)
        invariant
            n == spec@.len(),
            1 <= i,
            n > 0 ==> i <= n,
            skip_flags(spec@, i as int) == skip_flags(spec@, 1),
            left_align == holds_byte(spec@, 1, i as int, 45),
            zero_pad == holds_byte(spec@, 1, i as int, 48),
            plus == holds_byte(spec@, 1, i as int, 43),
            space == holds_byte(spec@, 1, i as int, 32),
            alt == holds_byte(spec@, 1, i as int, 35),
        decreases n - i,
    {
        let b = spec[i];
        if b == 45 {
            left_align = true;
        } else if b == 48 {
            zero_pad = true;
        } else if b == 43 {
            plus = true;
        } else if b == 32 {
            space = true;
        } else {
            alt = true;
        }
        i = i + 1;
    }
    let fe = i;
    if fe > n {
        proof {
            assert(skip_digits(spec@, fe as int) == fe);
            assert(dec_value(spec@, fe as int, fe as int) == 0);
        }
        return FormatSpec {
            width: 0,
            left_align,
            zero_pad,
            plus,
            space,
            alt,
            precision: None,
        };
    }
    let (width, we) = read_number(spec, fe);
    let precision = if we < n && spec[we] == 46 {
        let (p, _pe) = read_number(spec, we + 1);
        Some(p)
    } else {
        None
    };
    FormatSpec { width, left_align, zero_pad, plus, space, alt, precision }
}

/// `n` copies of the byte `b`.
pub open spec fn repeat_byte(b: u8, n: nat) -> Seq<u8> {
    Seq::new(n, |_i: int| b)
}

/// Does `s` start with the byte `b`?
pub open spec fn starts_with_byte(s: Seq<u8>, b: u8) -> bool {
    s.len() > 0 && s[0] == b
}

/// `raw` with the sign that the `+` or space flag asks for.
pub open spec fn signed_text(raw: Seq<u8>, f: FormatSpec) -> Seq<u8> {
    if f.plus && !starts_with_byte(raw, 45) {
        seq![43u8] + raw
    } else if f.space && !starts_with_byte(raw, 45) && !starts_with_byte(raw, 43) {
        seq![32u8] + raw
    } else {
        raw
    }
}

/// `raw` signed and padded to the width of `f`: with spaces after it when
/// left-aligned, with zeros after its sign when zero-padded, else with
/// spaces before it.
pub open spec fn padded(raw: Seq<u8>, f: FormatSpec) -> Seq<u8> {
    let s = signed_text(raw, f);
    if s.len() < f.width {
        let pad = (f.width - s.len()) as nat;
        if f.left_align {
            s + repeat_byte(32, pad)
        } else if f.zero_pad {
            let k: int = if starts_with_byte(s, 45) || starts_with_byte(s, 43) || starts_with_byte(
                s,
                32,
            ) {
                1
            } else {
                0
            };
            s.take(k) + repeat_byte(48, pad) + s.skip(k)
        } else {
            repeat_byte(32, pad) + s
        }
    } else {
        s
    }
}

/// Append `n` copies of `b` to `out`.
fn push_repeat(out: &mut Vec<u8>, b: u8, n: usize)
    ensures
        final(out)@ == old(out)@ + repeat_byte(b, n as nat),
{
    let mut k: usize = 0;
    while k < n
        invariant
            k <= n,
            out@ == old(out)@ + repeat_byte(b, k as nat),
        decreases n - k,
    {
        out.push(b);
        k = k + 1;
        assert(repeat_byte(b, k as nat) =~= repeat_byte(b, (k - 1) as nat).push(b));
    }
}

/// Sign and pad `raw` as the specification `f` asks.
pub fn apply_padding(raw: &[u8], f: &FormatSpec) -> (r: Vec<u8>)
    ensures
        r@ == padded(raw@, *f),
{
    let neg = raw.len() > 0 && raw[0] == 45;
    let pos = raw.len() > 0 && raw[0] == 43;
    let mut s: Vec<u8> = Vec::new();
    if f.plus && !neg {
        s.push(43u8);
    } else if f.space && !neg && !pos {
        s.push(32u8);
    }
    append_all(&mut s, raw);
    assert(s@ =~= signed_text(raw@, *f));
    let len = s.len();
    if len >= f.width {
        return s;
    }
    let pad = f.width - len;
    if f.left_align {
        push_repeat(&mut s, 32u8, pad);
        s
    } else if f.zero_pad {
        let k: usize = if len > 0 && (s[0] == 45 || s[0] == 43 || s[0] == 32) {
            1
        } else {
            0
        };
        let mut out: Vec<u8> = Vec::new();
        append_range(&mut out, s.as_slice(), 0, k);
        push_repeat(&mut out, 48u8, pad);
        append_range(&mut out, s.as_slice(), k, len);
        assert(out@ =~= padded(raw@, *f));
        out
    } else {
        let mut out: Vec<u8> = Vec::new();
        push_repeat(&mut out, 32u8, pad);
        append_all(&mut out, s.as_slice());
        assert(out@ =~= padded(raw@, *f));
        out
    }
}

/// The ASCII digit for `d` (below 16), upper- or lower-case.
pub open spec fn digit_byte(d: nat, upper: bool) -> u8 {
    if d < 10 {
        (48 + d) as u8
    } else if upper {
        (55 + d) as u8
    } else {
        (87 + d) as u8
    }
}

/// The hexadecimal digits of `n`, most significant first.
pub open spec fn hex_digits(n: nat, upper: bool) -> Seq<u8>
    decreases n,
{
    if n < 16 {
        seq![digit_byte(n, upper)]
    } else {
        hex_digits(n / 16, upper).push(digit_byte(n % 16, upper))
    }
}

/// The octal digits of `n`, most significant first.
pub open spec fn oct_digits(n: nat) -> Seq<u8>
    decreases n,
{
    if n < 8 {
        seq![digit_byte(n, false)]
    } else {
        oct_digits(n / 8).push(digit_byte(n % 8, false))
    }
}

/// The hexadecimal rendering, with its `0x` or `0X` prefix when `alt`.
pub open spec fn hex_text(n: nat, upper: bool, alt: bool) -> Seq<u8> {
    if alt {
        (if upper {
            seq![48u8, 88u8]
        } else {
            seq![48u8, 120u8]
        }) + hex_digits(n, upper)
    } else {
        hex_digits(n, upper)
    }
}

/// The octal rendering, with a leading `0` when `alt` and there is none.
pub open spec fn oct_text(n: nat, alt: bool) -> Seq<u8> {
    if alt && !starts_with_byte(oct_digits(n), 48) {
        seq![48u8] + oct_digits(n)
    } else {
        oct_digits(n)
    }
}

fn digit_of(d: u64, upper: bool) -> (r: u8)
    requires
        d < 16,
    ensures
        r == digit_byte(d as nat, upper),
{
    if d < 10 {
        (48 + d) as u8
    } else if upper {
        (55 + d) as u8
    } else {
        (87 + d) as u8
    }
}

pub fn push_hex(out: &mut Vec<u8>, n: u64, upper: bool)
    ensures
        final(out)@ == old(out)@ + hex_digits(n as nat, upper),
    decreases n,
{
    if n >= 16 {
        push_hex(out, n / 16, upper);
    }
    out.push(digit_of(n % 16, upper));
    proof {
        if n < 16 {
            assert(hex_digits(n as nat, upper) =~= seq![digit_byte(n as nat, upper)]);
        }
    }
}

fn push_oct(out: &mut Vec<u8>, n: u64)
    ensures
        final(out)@ == old(out)@ + oct_digits(n as nat),
    decreases n,
{
    if n >= 8 {
        push_oct(out, n / 8);
    }
    out.push(digit_of(n % 8, false));
    proof {
        if n < 8 {
            assert(oct_digits(n as nat) =~= seq![digit_byte(n as nat, false)]);
        }
    }
}

/// `%d`: the decimal rendering of `n`, signed and padded.
pub fn c_format_int(spec: &[u8], n: i64) -> (r: Vec<u8>)
    ensures
        r@ == padded(int_decimal(n as int), spec_of(spec@)),
{
    let info = parse_format_spec(spec);
    let mut raw: Vec<u8> = Vec::new();
    push_decimal(&mut raw, n);
    assert(raw@ =~= int_decimal(n as int));
    apply_padding(raw.as_slice(), &info)
}

/// `%u`: the decimal rendering of the unsigned `n`, signed and padded.
pub fn c_format_uint(spec: &[u8], n: u64) -> (r: Vec<u8>)
    ensures
        r@ == padded(nat_digits(n as nat), spec_of(spec@)),
{
    let info = parse_format_spec(spec);
    let mut raw: Vec<u8> = Vec::new();
    push_digits(&mut raw, n);
    assert(raw@ =~= nat_digits(n as nat));
    apply_padding(raw.as_slice(), &info)
}

/// `%x` / `%X`: the hexadecimal rendering of the bits of `n`.
pub fn c_format_hex(spec: &[u8], n: i64, upper: bool) -> (r: Vec<u8>)
    ensures
        r@ == padded(hex_text((n as u64) as nat, upper, spec_of(spec@).alt), spec_of(spec@)),
{
    let info = parse_format_spec(spec);
    let mut raw: Vec<u8> = Vec::new();
    if info.alt {
        raw.push(48u8);
        if upper {
            raw.push(88u8);
        } else {
            raw.push(120u8);
        }
    }
    push_hex(&mut raw, n as u64, upper);
    assert(raw@ =~= hex_text((n as u64) as nat, upper, info.alt));
    apply_padding(raw.as_slice(), &info)
}

/// `%o`: the octal rendering of the bits of `n`.
pub fn c_format_oct(spec: &[u8], n: i64) -> (r: Vec<u8>)
    ensures
        r@ == padded(oct_text((n as u64) as nat, spec_of(spec@).alt), spec_of(spec@)),
{
    let info = parse_format_spec(spec);
    let mut digits: Vec<u8> = Vec::new();
    push_oct(&mut digits, n as u64);
    assert(digits@ =~= oct_digits((n as u64) as nat));
    let raw = if info.alt && !(digits.len() > 0 && digits[0] == 48) {
        let mut p: Vec<u8> = Vec::new();
        p.push(48u8);
        append_all(&mut p, digits.as_slice());
        p
    } else {
        digits
    };
    assert(raw@ =~= oct_text((n as u64) as nat, info.alt));
    apply_padding(raw.as_slice(), &info)
}

/// A value handed to `string.format`, as far as the formatter reads it.
#[derive(Debug)]
pub enum FormatArg {
    Nil,
    Boolean(bool),
    Integer(i64),
    /// A floating-point number; its rendering is left to the caller.
    Float,
    Str(Vec<u8>),
    /// Any other value (table, function, userdata, ...), by its type name.
    Other(String),
}

/// The type name of an argument, as error messages give it.
pub open spec fn arg_type_of(a: FormatArg) -> Seq<char> {
    match a {
        FormatArg::Nil => "nil"@,
        FormatArg::Boolean(_) => "boolean"@,
        FormatArg::Integer(_) => "number"@,
        FormatArg::Float => "number"@,
        FormatArg::Str(_) => "string"@,
        FormatArg::Other(name) => name@,
    }
}

/// The type name of an argument.
pub fn arg_type_name(a: &FormatArg) -> (r: String)
    ensures
        r@ == arg_type_of(*a),
{
    match a {
        FormatArg::Nil => String::from_str("nil"),
        FormatArg::Boolean(_) => String::from_str("boolean"),
        FormatArg::Integer(_) => String::from_str("number"),
        FormatArg::Float => String::from_str("number"),
        FormatArg::Str(_) => String::from_str("string"),
        FormatArg::Other(name) => name.clone(),
    }
}

/// The text that `%s` and `%q` render for an argument; `None` for a
/// float, whose text the caller supplies.
pub open spec fn text_of(a: FormatArg) -> Option<Seq<char>> {
    match a {
        FormatArg::Str(t) => Some(utf8_lossy(t@)),
        FormatArg::Integer(n) => Some(int_text(n as int)),
        FormatArg::Float => None,
        FormatArg::Nil => Some("nil"@),
        FormatArg::Boolean(b) => Some(
            if b {
                "true"@
            } else {
                "false"@
            },
        ),
        FormatArg::Other(name) => Some(name@),
    }
}

/// The text of an argument for `%s` and `%q`.
pub fn arg_text(a: &FormatArg) -> (r: Option<String>)
    ensures
        match text_of(*a) {
            Some(t) => r matches Some(s) && s@ == t,
            None => r is None,
        },
{
    match a {
        FormatArg::Str(t) => Some(lossy_text(t.as_slice())),
        FormatArg::Integer(n) => Some(decimal_string(*n)),
        FormatArg::Float => None,
        FormatArg::Nil => Some(String::from_str("nil")),
        FormatArg::Boolean(b) => {
            if *b {
                Some(String::from_str("true"))
            } else {
                Some(String::from_str("false"))
            }
        },
        FormatArg::Other(name) => Some(name.clone()),
    }
}

/// The first index of `.` in `s`, if any.
pub open spec fn first_dot(s: Seq<u8>) -> Option<int>
    decreases s.len(),
{
    if s.len() == 0 {
        None
    } else {
        match first_dot(s.drop_last()) {
            Some(k) => Some(k),
            None => if s.last() == 46 {
                Some(s.len() - 1)
            } else {
                None
            },
        }
    }
}

/// The precision by which `%s` truncates its text: the digits between the
/// first `.` of the specification and its conversion byte, when there
/// are some and their value fits in `usize`.
pub open spec fn s_precision(spec: Seq<u8>) -> Option<nat> {
    match first_dot(spec) {
        Some(d) => {
            let e = spec.len() - 1;
            if d + 1 < e && (forall|k: int| d + 1 <= k < e ==> is_digit(#[trigger] spec[k]))
                && dec_value(spec, d + 1, e) <= usize::MAX {
                Some(dec_value(spec, d + 1, e))
            } else {
                None
            }
        },
        None => None,
    }
}

proof fn lemma_first_dot_step(s: Seq<u8>, k: int)
    requires
        0 <= k < s.len(),
    ensures
        first_dot(s.take(k + 1)) == (match first_dot(s.take(k)) {
            Some(j) => Some(j),
            None => if s[k] == 46 {
                Some(k)
            } else {
                None
            },
        }),
{
    assert(s.take(k + 1).drop_last() =~= s.take(k));
}

/// The precision by which `%s` truncates its text.
fn s_precision_of(spec: &[u8]) -> (r: Option<usize>)
    ensures
        match s_precision(spec@) {
            Some(v) => r == Some(v as usize),
            None => r is None,
        },
{
    let n = spec.len();
    let mut d: usize = 0;
    while d < n && spec[d] != 46
        invariant
            n == spec@.len(),
            d <= n,
            first_dot(spec@.take(d as int)) is None,
        decreases n - d,
    {
        proof {
            lemma_first_dot_step(spec@, d as int);
        }
        d = d + 1;
    }
    if d == n {
        assert(spec@.take(n as int) =~= spec@);
        return None;
    }
    proof {
        lemma_first_dot_step(spec@, d as int);
        lemma_first_dot_prefix(spec@, d as int + 1);
        assert(first_dot(spec@) == Some(d as int));
    }
    let e = n - 1;
    if d + 1 >= e {
        return None;
    }
    let mut j = d + 1;
    let mut v: usize = 0;
    let mut fits = true;
    while j < e
        invariant
            n == spec@.len(),
            e == n - 1,
            first_dot(spec@) == Some(d as int),
            d + 1 <= j <= e,
            forall|k: int| d + 1 <= k < j ==> is_digit(#[trigger] spec@[k]),
            fits ==> v == dec_value(spec@, d + 1, j as int),
            !fits ==> dec_value(spec@, d + 1, j as int) > usize::MAX,
        decreases e - j,
    {
        let b = spec[j];
        if b < 48 || b > 57 {
            return None;
        }
        let digit = (b - 48) as usize;
        proof {
            assert(dec_value(spec@, d + 1, j + 1) == dec_value(spec@, d + 1, j as int) * 10
                + digit);
        }
        if fits {
            match v.checked_mul(10) {
                Some(t) => match t.checked_add(digit) {
                    Some(u) => {
                        v = u;
                    },
                    None => {
                        fits = false;
                    },
                },
                None => {
                    fits = false;
                },
            }
        }
        j = j + 1;
    }
    if fits {
        Some(v)
    } else {
        None
    }
}

proof fn lemma_first_dot_prefix(s: Seq<u8>, k: int)
    requires
        0 <= k <= s.len(),
        first_dot(s.take(k)) is Some,
    ensures
        first_dot(s) == first_dot(s.take(k)),
    decreases s.len() - k,
{
    if k < s.len() {
        lemma_first_dot_step(s, k);
        lemma_first_dot_prefix(s, k + 1);
    } else {
        assert(s.take(k) =~= s);
    }
}

/// The escape of one byte inside a `%q` string.
pub open spec fn escape_byte(b: u8) -> Seq<u8> {
    if b == 92 {
        seq![92u8, 92u8]
    } else if b == 34 {
        seq![92u8, 34u8]
    } else if b == 10 {
        seq![92u8, 110u8]
    } else if b == 13 {
        seq![92u8, 114u8]
    } else if b == 0 {
        seq![92u8, 48u8]
    } else if b == 26 {
        seq![92u8, 50u8, 54u8]
    } else {
        seq![b]
    }
}

/// The bytes with each escaped.
pub open spec fn escaped(b: Seq<u8>) -> Seq<u8>
    decreases b.len(),
{
    if b.len() == 0 {
        Seq::empty()
    } else {
        escaped(b.drop_last()) + escape_byte(b.last())
    }
}

/// `%q`: the bytes escaped between double quotes.
pub open spec fn quoted(b: Seq<u8>) -> Seq<u8> {
    seq![34u8] + escaped(b) + seq![34u8]
}

/// Append the escape of `b` to `out`.
fn push_escape(out: &mut Vec<u8>, b: u8)
    ensures
        final(out)@ == old(out)@ + escape_byte(b),
{
    if b == 92 {
        out.push(92u8);
        out.push(92u8);
    } else if b == 34 {
        out.push(92u8);
        out.push(34u8);
    } else if b == 10 {
        out.push(92u8);
        out.push(110u8);
    } else if b == 13 {
        out.push(92u8);
        out.push(114u8);
    } else if b == 0 {
        out.push(92u8);
        out.push(48u8);
    } else if b == 26 {
        out.push(92u8);
        out.push(50u8);
        out.push(54u8);
    } else {
        out.push(b);
    }
    assert(out@ =~= old(out)@ + escape_byte(b));
}

/// Quote `b` as `%q` does.
pub fn quote_bytes(b: &[u8]) -> (r: Vec<u8>)
    ensures
        r@ == quoted(b@),
{
    let n = b.len();
    let mut out: Vec<u8> = Vec::new();
    out.push(34u8);
    let mut i: usize = 0;
    while i < n
        invariant
            n == b@.len(),
            i <= n,
            out@ == seq![34u8] + escaped(b@.take(i as int)),
        decreases n - i,
    {
        proof {
            assert(b@.take(i + 1).drop_last() =~= b@.take(i as int));
        }
        push_escape(&mut out, b[i]);
        i = i + 1;
        assert(out@ =~= seq![34u8] + escaped(b@.take(i as int)));
    }
    out.push(34u8);
    assert(b@.take(n as int) =~= b@);
    assert(out@ =~= quoted(b@));
    out
}

/// A conversion byte that reads its argument as an integer.
pub open spec fn is_int_conv(c: u8) -> bool {
    c == 100 || c == 105 || c == 117 || c == 120 || c == 88 || c == 111 || c == 99
}

/// A conversion byte that reads its argument as a float.
pub open spec fn is_float_conv(c: u8) -> bool {
    c == 102 || c == 101 || c == 69 || c == 103 || c == 71
}

/// The rendering of the integer `n` by the integer conversion `conv`.
pub open spec fn int_conversion(spec: Seq<u8>, conv: u8, n: i64) -> Seq<u8> {
    let f = spec_of(spec);
    if conv == 100 || conv == 105 {
        padded(int_decimal(n as int), f)
    } else if conv == 117 {
        padded(nat_digits((n as u64) as nat), f)
    } else if conv == 120 || conv == 88 {
        padded(hex_text((n as u64) as nat, conv == 88, f.alt), f)
    } else if conv == 111 {
        padded(oct_text((n as u64) as nat, f.alt), f)
    } else {
        seq![(n & 0xFF) as u8]
    }
}

/// The text `t`, cut to its first `p` characters when a precision is given.
pub open spec fn truncate_chars(t: Seq<char>, p: Option<nat>) -> Seq<char> {
    match p {
        Some(k) => if k < t.len() {
            t.take(k as int)
        } else {
            t
        },
        None => t,
    }
}

/// Why a format fails.
pub enum FmtFault {
    /// The format ends with a lone `%`.
    EndsWithPercent,
    /// Flags, width or precision without a conversion byte after them.
    MissingConversion,
    /// No argument for the conversion at this 1-based position.
    NoValue(nat),
    /// The argument at this position, of this type, is not a number.
    NotNumber(nat, Seq<char>),
    /// An unknown conversion byte.
    BadConversion(u8),
}

/// What one conversion produces: text, a hand-off to the caller, or a
/// failure.
pub enum Directive {
    Text(Seq<u8>),
    Outside,
    Fail(FmtFault),
}

/// The outcome of the conversion `conv` with the specification `spec`
/// (from its `%` to its conversion byte) on the argument `a` at 1-based
/// position `pos`.
pub open spec fn directive(spec: Seq<u8>, conv: u8, a: FormatArg, pos: nat) -> Directive {
    if is_int_conv(conv) {
        match int_reading(a) {
            IntReading::Int(n) => Directive::Text(int_conversion(spec, conv, n)),
            IntReading::Undecided => Directive::Outside,
            IntReading::NotNumber => Directive::Fail(FmtFault::NotNumber(pos, arg_type_of(a))),
        }
    } else if is_float_conv(conv) {
        if float_candidate(a) {
            Directive::Outside
        } else {
            Directive::Fail(FmtFault::NotNumber(pos, arg_type_of(a)))
        }
    } else if conv == 115 {
        match text_of(a) {
            Some(t) => Directive::Text(
                padded(encode_utf8(truncate_chars(t, s_precision(spec))), spec_of(spec)),
            ),
            None => Directive::Outside,
        }
    } else if conv == 113 {
        match text_of(a) {
            Some(t) => Directive::Text(quoted(encode_utf8(t))),
            None => Directive::Outside,
        }
    } else if conv == 112 {
        Directive::Outside
    } else {
        Directive::Fail(FmtFault::BadConversion(conv))
    }
}

/// The hint shown when a format string ends with `%`.
pub open spec fn ends_with_percent_hint() -> Seq<char> {
    "every `%` must be followed by a conversion specifier; use `%%` to insert a literal `%`"@
}

/// The hint shown when a directive has no conversion specifier.
pub open spec fn missing_conversion_hint() -> Seq<char> {
    "the `%` was followed only by flags, width, or precision; add a conversion specifier (one of `d`, `i`, `u`, `o`, `x`, `X`, `c`, `e`, `E`, `f`, `g`, `G`, `s`, `q`, `%`)"@
}

/// Is `e` the error for the fault `k`?
pub open spec fn fault_matches(e: LibError, k: FmtFault) -> bool {
    match k {
        FmtFault::EndsWithPercent => is_runtime_at(
            e,
            "invalid format string (ends with '%')"@,
            None,
            seq![ends_with_percent_hint()],
        ),
        FmtFault::MissingConversion => is_runtime_at(
            e,
            "invalid format string (missing conversion specifier)"@,
            None,
            seq![missing_conversion_hint()],
        ),
        FmtFault::NoValue(p) => is_runtime(
            e,
            "bad argument #"@ + ascii_text(nat_digits(p)) + " to 'format' (no value)"@,
        ),
        FmtFault::NotNumber(p, t) => is_bad_argument_got(e, p as usize, "format"@, "number"@, t),
        FmtFault::BadConversion(c) => is_runtime(
            e,
            "invalid format string (invalid conversion specifier '%"@ + seq![c as char] + "')"@,
        ),
    }
}

/// Render the integer `n` by the integer conversion `conv`.
fn run_int_conversion(spec: &[u8], conv: u8, n: i64) -> (r: Vec<u8>)
    requires
        is_int_conv(conv),
    ensures
        r@ == int_conversion(spec@, conv, n),
{
    if conv == 100 || conv == 105 {
        c_format_int(spec, n)
    } else if conv == 117 {
        c_format_uint(spec, n as u64)
    } else if conv == 120 || conv == 88 {
        c_format_hex(spec, n, conv == 88)
    } else if conv == 111 {
        c_format_oct(spec, n)
    } else {
        let mut v: Vec<u8> = Vec::new();
        v.push((n & 0xFF) as u8);
        assert(v@ =~= seq![(n & 0xFF) as u8]);
        v
    }
}

/// `%s`: the text of the argument, cut to the precision and padded;
/// `None` for a float.
fn run_string_conversion(spec: &[u8], a: &FormatArg) -> (r: Option<Vec<u8>>)
    ensures
        match text_of(*a) {
            Some(t) => r matches Some(v) && v@ == padded(
                encode_utf8(truncate_chars(t, s_precision(spec@))),
                spec_of(spec@),
            ),
            None => r is None,
        },
{
    match arg_text(a) {
        None => None,
        Some(text) => {
            let info = parse_format_spec(spec);
            let st = text.as_str();
            let bytes: &[u8] = match s_precision_of(spec) {
                Some(p) => {
                    let len = st.unicode_len();
                    if p < len {
                        st.substring_char(0, p).as_bytes()
                    } else {
                        st.as_bytes()
                    }
                },
                None => st.as_bytes(),
            };
            Some(apply_padding(bytes, &info))
        },
    }
}

/// `%q`: the text of the argument, quoted; `None` for a float.
fn run_quote_conversion(a: &FormatArg) -> (r: Option<Vec<u8>>)
    ensures
        match text_of(*a) {
            Some(t) => r matches Some(v) && v@ == quoted(encode_utf8(t)),
            None => r is None,
        },
{
    match arg_text(a) {
        None => None,
        Some(text) => Some(quote_bytes(text.as_str().as_bytes())),
    }
}

/// `String::push`: append the character `c`.
#[verifier::external_body]
pub(crate) fn push_char(s: &mut String, c: char)
    ensures
        final(s)@ == old(s)@.push(c),
{
    s.push(c);
}

/// The error for an unknown conversion byte.
fn bad_conversion(c: u8) -> (e: LibError)
    ensures
        fault_matches(e, FmtFault::BadConversion(c)),
{
    let mut m = String::from_str("invalid format string (invalid conversion specifier '%");
    push_char(&mut m, c as char);
    m.append("')");
    assert(m@ =~= "invalid format string (invalid conversion specifier '%"@ + seq![c as char]
        + "')"@);
    runtime_error(m)
}

/// Perform the conversion `conv` with the specification `spec` on the
/// argument `a` at 1-based position `pos`: its text, `None` where the
/// caller renders it, or the error.
fn run_directive(spec: &[u8], conv: u8, a: &FormatArg, pos: usize) -> (r: Result<
    Option<Vec<u8>>,
    LibError,
>)
    ensures
        match directive(spec@, conv, *a, pos as nat) {
            Directive::Text(t) => r matches Ok(Some(v)) && v@ == t,
            Directive::Outside => r matches Ok(None),
            Directive::Fail(k) => r matches Err(e) && fault_matches(e, k),
        },
{
    if conv == 100 || conv == 105 || conv == 117 || conv == 120 || conv == 88 || conv == 111
        || conv == 99 {
        match coerce_to_integer(a, pos, "format") {
            Ok(Some(n)) => Ok(Some(run_int_conversion(spec, conv, n))),
            Ok(None) => Ok(None),
            Err(e) => Err(e),
        }
    } else if conv == 102 || conv == 101 || conv == 69 || conv == 103 || conv == 71 {
        match check_float_arg(a, pos, "format") {
            Ok(()) => Ok(None),
            Err(e) => Err(e),
        }
    } else if conv == 115 {
        Ok(run_string_conversion(spec, a))
    } else if conv == 113 {
        Ok(run_quote_conversion(a))
    } else if conv == 112 {
        Ok(None)
    } else {
        Err(bad_conversion(conv))
    }
}

/// The index of the conversion byte of a specification whose flags start
/// at `i`: past the flags, the width digits, and a `.` with its digits.
pub open spec fn conv_index(fmt: Seq<u8>, i: int) -> int {
    let w = skip_digits(fmt, skip_flags(fmt, i));
    if 0 <= w < fmt.len() && fmt[w] == 46 {
        skip_digits(fmt, w + 1)
    } else {
        w
    }
}

pub proof fn lemma_conv_index(fmt: Seq<u8>, i: int)
    requires
        1 <= i,
    ensures
        i <= conv_index(fmt, i),
{
    lemma_skip_flags(fmt, i);
    let f = skip_flags(fmt, i);
    lemma_skip_digits(fmt, f);
    let w = skip_digits(fmt, f);
    if 0 <= w < fmt.len() && fmt[w] == 46 {
        lemma_skip_digits(fmt, w + 1);
    }
}

/// How formatting proceeds from some point on: to the end with this
/// text, to a conversion handed to the caller (the text before it, the
/// index of its `%`, of its conversion byte, and of its argument), or to
/// a failure.
pub enum Scan {
    Finished(Seq<u8>),
    Handoff(Seq<u8>, int, int, int),
    Failed(FmtFault),
}

/// `s` with the text `p` in front of its output.
pub open spec fn with_prefix(p: Seq<u8>, s: Scan) -> Scan {
    match s {
        Scan::Finished(t) => Scan::Finished(p + t),
        Scan::Handoff(t, a, c, k) => Scan::Handoff(p + t, a, c, k),
        Scan::Failed(f) => Scan::Failed(f),
    }
}

/// Formatting `fmt` from index `i`, with the argument at index `a` next:
/// bytes other than `%` are copied, `%%` gives `%`, and each conversion
/// takes the next argument.
pub open spec fn scan(fmt: Seq<u8>, i: int, a: int, args: Seq<FormatArg>) -> Scan
    decreases fmt.len() - i,
{
    if i < 0 || i >= fmt.len() {
        Scan::Finished(Seq::empty())
    } else if fmt[i] != 37 {
        with_prefix(seq![fmt[i]], scan(fmt, i + 1, a, args))
    } else if i + 1 >= fmt.len() {
        Scan::Failed(FmtFault::EndsWithPercent)
    } else if fmt[i + 1] == 37 {
        with_prefix(seq![37u8], scan(fmt, i + 2, a, args))
    } else {
        let c = conv_index(fmt, i + 1);
        if c >= fmt.len() {
            Scan::Failed(FmtFault::MissingConversion)
        } else if a < 0 || a >= args.len() {
            Scan::Failed(FmtFault::NoValue((a + 2) as nat))
        } else {
            match directive(fmt.subrange(i, c + 1), fmt[c], args[a], (a + 2) as nat) {
                Directive::Text(t) => {
                    proof {
                        lemma_conv_index(fmt, i + 1);
                    }
                    with_prefix(t, scan(fmt, c + 1, a + 1, args))
                },
                Directive::Outside => Scan::Handoff(Seq::empty(), i, c, a),
                Directive::Fail(f) => Scan::Failed(f),
            }
        }
    }
}

proof fn lemma_with_prefix_twice(p: Seq<u8>, q: Seq<u8>, s: Scan)
    ensures
        with_prefix(p, with_prefix(q, s)) == with_prefix(p + q, s),
{
    match s {
        Scan::Finished(t) => {
            assert(p + (q + t) =~= (p + q) + t);
        },
        Scan::Handoff(t, a, c, k) => {
            assert(p + (q + t) =~= (p + q) + t);
        },
        Scan::Failed(f) => {},
    }
}

/// The first index at or after `i` that holds no flag byte.
fn skip_flags_from(fmt: &[u8], i: usize) -> (r: usize)
    requires
        1 <= i <= fmt@.len(),
    ensures
        r == skip_flags(fmt@, i as int),
        r <= fmt@.len(),
{
    let n = fmt.len();
    let mut j = i;
    while j < n && (fmt[j] == 45 || fmt[j] == 43 || fmt[j] == 32 || fmt[j] == 35 || fmt[j] == 48)
        invariant
            n == fmt@.len(),
            i <= j <= n,
            skip_flags(fmt@, j as int) == skip_flags(fmt@, i as int),
        decreases n - j,
    {
        j = j + 1;
    }
    j
}

/// The index of the conversion byte of the specification whose flags
/// start at `i`.
fn conv_index_of(fmt: &[u8], i: usize) -> (r: usize)
    requires
        1 <= i <= fmt@.len(),
    ensures
        r == conv_index(fmt@, i as int),
        r <= fmt@.len(),
{
    let f = skip_flags_from(fmt, i);
    let (_w, we) = read_number(fmt, f);
    proof {
        lemma_skip_digits(fmt@, f as int);
    }
    if we < fmt.len() && fmt[we] == 46 {
        let (_p, pe) = read_number(fmt, we + 1);
        proof {
            lemma_skip_digits(fmt@, we + 1);
        }
        pe
    } else {
        we
    }
}

/// What a formatting step ends with: the whole format done, or a
/// conversion for the caller to render (its specification from `%` to
/// the conversion byte, the conversion byte, and the index of its
/// argument); the caller appends the rendering and steps on.
#[derive(Debug)]
pub enum FormatStep {
    Done,
    Outside { spec: Vec<u8>, conv: u8, arg: usize },
}

/// `string.format` as a sequence of steps: each step copies text and
/// performs conversions up to the end of the format or to the next
/// conversion that only the caller can render.
pub struct Formatter {
    fmt: Vec<u8>,
    pos: usize,
    next_arg: usize,
    out: Vec<u8>,
}

impl Formatter {
    /// The format being rendered.
    pub closed spec fn format_bytes(&self) -> Seq<u8> {
        self.fmt@
    }

    /// The index in the format where the next step starts.
    pub closed spec fn position(&self) -> int {
        self.pos as int
    }

    /// The index of the next argument.
    pub closed spec fn arg_index(&self) -> int {
        self.next_arg as int
    }

    /// The text rendered so far.
    pub closed spec fn output(&self) -> Seq<u8> {
        self.out@
    }

    /// A formatter at the start of `fmt`.
    pub fn new(fmt: &[u8]) -> (r: Formatter)
        ensures
            r.format_bytes() == fmt@,
            r.position() == 0,
            r.arg_index() == 0,
            r.output() == Seq::<u8>::empty(),
    {
        let n = fmt.len();
        let v = copy_range(fmt, 0, n);
        assert(fmt@.subrange(0, n as int) =~= fmt@);
        Formatter { fmt: v, pos: 0, next_arg: 0, out: Vec::new() }
    }

    /// Render up to the end of the format, or up to a conversion that the
    /// caller renders (a float, a string read as a number by a
    /// floating-point reading, an address); then its argument is taken.
    pub fn step(&mut self, args: &[FormatArg]) -> (r: Result<FormatStep, LibError>)
        requires
            args@.len() + 2 <= usize::MAX,
            old(self).arg_index() <= args@.len(),
        ensures
            final(self).format_bytes() == old(self).format_bytes(),
            match scan(old(self).format_bytes(), old(self).position(), old(self).arg_index(), args@) {
                Scan::Finished(t) => r matches Ok(FormatStep::Done) && final(self).output()
                    == old(self).output() + t && final(self).position()
                    >= final(self).format_bytes().len() && final(self).arg_index() <= args@.len(),
                Scan::Handoff(t, s, c, a) => r matches Ok(FormatStep::Outside { spec, conv, arg })
                    && spec@ == old(self).format_bytes().subrange(s, c + 1) && conv
                    == old(self).format_bytes()[c] && arg == a && final(self).output()
                    == old(self).output() + t && final(self).position() == c + 1
                    && final(self).arg_index() == a + 1 && a < args@.len(),
                Scan::Failed(k) => r matches Err(e) && fault_matches(e, k),
            },
    {
        let n = self.fmt.len();
        let ghost fmt = self.fmt@;
        let ghost i0 = self.pos as int;
        let ghost a0 = self.next_arg as int;
        let ghost out0 = self.out@;
        if self.pos >= n {
            assert(self.out@ =~= out0 + Seq::<u8>::empty());
            return Ok(FormatStep::Done);
        }
        let ghost mut added: Seq<u8> = Seq::empty();
        assert(with_prefix(added, scan(fmt, i0, a0, args@)) == scan(fmt, i0, a0, args@)) by {
            match scan(fmt, i0, a0, args@) {
                Scan::Finished(t) => {
                    assert(added + t =~= t);
                },
                Scan::Handoff(t, x, y, z) => {
                    assert(added + t =~= t);
                },
                Scan::Failed(f) => {},
            }
        }
        loop
            invariant
                self.fmt@ == fmt,
                fmt == old(self).fmt@,
                i0 == old(self).pos,
                a0 == old(self).next_arg,
                out0 == old(self).out@,
                n == fmt.len(),
                self.pos <= n,
                self.next_arg <= args@.len(),
                args@.len() + 2 <= usize::MAX,
                self.out@ == out0 + added,
                scan(fmt, i0, a0, args@) == with_prefix(added, scan(
                    fmt,
                    self.pos as int,
                    self.next_arg as int,
                    args@,
                )),
            decreases n - self.pos,
        {
            let i = self.pos;
            if i >= n {
                assert(self.out@ =~= out0 + added);
                assert(added + Seq::<u8>::empty() =~= added);
                return Ok(FormatStep::Done);
            }
            let b = self.fmt[i];
            if b != 37 {
                proof {
                    lemma_with_prefix_twice(added, seq![b], scan(fmt, i + 1, self.next_arg as int, args@));
                    added = added + seq![b];
                }
                self.out.push(b);
                self.pos = i + 1;
                assert(self.out@ =~= out0 + added);
                continue;
            }
            if i + 1 >= n {
                return Err(runtime_error_with(
                    String::from_str("invalid format string (ends with '%')"),
                    None,
                    "every `%` must be followed by a conversion specifier; use `%%` to insert a literal `%`",
                ));
            }
            if self.fmt[i + 1] == 37 {
                proof {
                    lemma_with_prefix_twice(added, seq![37u8], scan(fmt, i + 2, self.next_arg as int, args@));
                    added = added + seq![37u8];
                }
                self.out.push(37u8);
                self.pos = i + 2;
                assert(self.out@ =~= out0 + added);
                continue;
            }
            let c = conv_index_of(self.fmt.as_slice(), i + 1);
            if c >= n {
                return Err(runtime_error_with(
                    String::from_str("invalid format string (missing conversion specifier)"),
                    None,
                    "the `%` was followed only by flags, width, or precision; add a conversion specifier (one of `d`, `i`, `u`, `o`, `x`, `X`, `c`, `e`, `E`, `f`, `g`, `G`, `s`, `q`, `%`)",
                ));
            }
            let a = self.next_arg;
            if a >= args.len() {
                let mut m = String::from_str("bad argument #");
                append_digits(&mut m, (a as u64) + 2);
                m.append(" to 'format' (no value)");
                assert(m@ =~= "bad argument #"@ + ascii_text(nat_digits((a + 2) as nat))
                    + " to 'format' (no value)"@);
                return Err(runtime_error(m));
            }
            proof {
                lemma_conv_index(fmt, i + 1);
            }
            let spec = copy_range(self.fmt.as_slice(), i, c + 1);
            let conv = self.fmt[c];
            match run_directive(spec.as_slice(), conv, &args[a], a + 2) {
                Ok(Some(t)) => {
                    proof {
                        lemma_with_prefix_twice(added, t@, scan(fmt, c + 1, a + 1, args@));
                        added = added + t@;
                    }
                    append_all(&mut self.out, t.as_slice());
                    self.pos = c + 1;
                    self.next_arg = a + 1;
                    assert(self.out@ =~= out0 + added);
                },
                Ok(None) => {
                    self.pos = c + 1;
                    self.next_arg = a + 1;
                    assert(self.out@ =~= out0 + added);
                    assert(added + Seq::<u8>::empty() =~= added);
                    return Ok(FormatStep::Outside { spec, conv, arg: a });
                },
                Err(e) => {
                    return Err(e);
                },
            }
        }
    }

    /// Append the caller's rendering of a handed-off conversion.
    pub fn push_text(&mut self, text: &[u8])
        ensures
            final(self).format_bytes() == old(self).format_bytes(),
            final(self).position() == old(self).position(),
            final(self).arg_index() == old(self).arg_index(),
            final(self).output() == old(self).output() + text@,
    {
        append_all(&mut self.out, text);
    }

    /// The text rendered.
    pub fn finish(self) -> (r: Vec<u8>)
        ensures
            r@ == self.output(),
    {
        self.out
    }
}

/// `string.format(fmt, ...)` when no conversion needs the caller:
/// `Ok(Some(text))`, `Ok(None)` when the format reaches a conversion
/// that the caller renders (then a `Formatter` is the way), or the error.
pub fn string_format(fmt: &[u8], args: &[FormatArg]) -> (r: Result<Option<Vec<u8>>, LibError>)
    requires
        args@.len() + 2 <= usize::MAX,
    ensures
        match scan(fmt@, 0, 0, args@) {
            Scan::Finished(t) => r matches Ok(Some(v)) && v@ == t,
            Scan::Handoff(..) => r matches Ok(None),
            Scan::Failed(k) => r matches Err(e) && fault_matches(e, k),
        },
{
    let mut f = Formatter::new(fmt);
    match f.step(args) {
        Ok(FormatStep::Done) => {
            let v = f.finish();
            assert(Seq::<u8>::empty() + v@ =~= v@);
            Ok(Some(v))
        },
        Ok(FormatStep::Outside { .. }) => Ok(None),
        Err(e) => Err(e),
    }
}

proof fn lemma_scan_plain(fmt: Seq<u8>, i: int, a: int, args: Seq<FormatArg>)
    requires
        0 <= i <= fmt.len(),
        forall|k: int| 0 <= k < fmt.len() ==> #[trigger] fmt[k] != 37,
    ensures
        scan(fmt, i, a, args) == Scan::Finished(fmt.skip(i)),
    decreases fmt.len() - i,
{
    if i < fmt.len() {
        lemma_scan_plain(fmt, i + 1, a, args);
        assert(seq![fmt[i]] + fmt.skip(i + 1) =~= fmt.skip(i));
    } else {
        assert(fmt.skip(i) =~= Seq::<u8>::empty());
    }
}

/// A format without `%` renders as itself, whatever the arguments.
pub proof fn law_format_without_percent(fmt: Seq<u8>, args: Seq<FormatArg>)
    requires
        forall|k: int| 0 <= k < fmt.len() ==> #[trigger] fmt[k] != 37,
    ensures
        scan(fmt, 0, 0, args) == Scan::Finished(fmt),
{
    lemma_scan_plain(fmt, 0, 0, args);
    assert(fmt.skip(0) =~= fmt);
}

/// Padding makes a rendering exactly as wide as the width asks, unless it
/// is wider already; left-aligned, the signed text comes first, and
/// without `-` or `0` it comes last.
pub proof fn law_padding_width(raw: Seq<u8>, f: FormatSpec)
    ensures
        padded(raw, f).len() == (if signed_text(raw, f).len() < f.width {
            f.width as int
        } else {
            signed_text(raw, f).len() as int
        }),
        f.left_align ==> padded(raw, f).take(signed_text(raw, f).len() as int) == signed_text(
            raw,
            f,
        ),
        !f.left_align && !f.zero_pad ==> padded(raw, f).skip(
            padded(raw, f).len() - signed_text(raw, f).len(),
        ) == signed_text(raw, f),
{
    let st = signed_text(raw, f);
    let p = padded(raw, f);
    if st.len() < f.width {
        let pad = (f.width - st.len()) as nat;
        if f.left_align {
            assert(p.take(st.len() as int) =~= st);
        } else if !f.zero_pad {
            assert(p.skip(p.len() - st.len()) =~= st);
        }
    } else {
        assert(p.take(st.len() as int) =~= st);
        assert(p.skip(p.len() - st.len()) =~= st);
    }
}

} // verus!
