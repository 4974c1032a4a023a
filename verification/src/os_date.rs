//! `os.date`: a broken-down date and time formatted by strftime-like
//! specifiers, or read as the fields of a date table.
use vstd::prelude::*;
use crate::decimal::{ascii_text, decimal_bytes, int_decimal};
use crate::format::{FormatSpec, apply_padding, padded, push_char};

verus! {

/// A date and time with its offset from UTC, as a calendar gives it.
#[derive(Debug, Clone, Copy)]
pub struct DateFields {
    pub year: i32,
    /// 1 (January) to 12.
    pub month: u8,
    /// 1 to 31.
    pub day: u8,
    /// 0 to 23.
    pub hour: u8,
    pub minute: u8,
    pub second: u8,
    /// Days since Sunday, 0 to 6.
    pub weekday: u8,
    /// Day of the year, 1 to 366.
    pub ordinal: u16,
    /// Offset from UTC in seconds.
    pub offset_seconds: i32,
}

/// The fields are in their calendar ranges.
pub open spec fn fields_wf(d: DateFields) -> bool {
    1 <= d.month <= 12 && d.weekday < 7 && d.hour < 24
}

/// `n` in decimal, zero-padded (after its sign) to `w` characters.
pub open spec fn zero_padded(n: int, w: usize) -> Seq<char> {
    ascii_text(
        padded(
            int_decimal(n),
            FormatSpec {
                width: w,
                left_align: false,
                zero_pad: true,
                plus: false,
                space: false,
                alt: false,
                precision: None,
            },
        ),
    )
}

/// `n` in decimal, space-padded in front to `w` characters.
pub open spec fn space_padded(n: int, w: usize) -> Seq<char> {
    ascii_text(
        padded(
            int_decimal(n),
            FormatSpec {
                width: w,
                left_align: false,
                zero_pad: false,
                plus: false,
                space: false,
                alt: false,
                precision: None,
            },
        ),
    )
}

/// The English weekday name, abbreviated or full.
pub open spec fn weekday_name(w: u8, full: bool) -> Seq<char> {
    if w == 0 {
        if full { "Sunday"@ } else { "Sun"@ }
    } else if w == 1 {
        if full { "Monday"@ } else { "Mon"@ }
    } else if w == 2 {
        if full { "Tuesday"@ } else { "Tue"@ }
    } else if w == 3 {
        if full { "Wednesday"@ } else { "Wed"@ }
    } else if w == 4 {
        if full { "Thursday"@ } else { "Thu"@ }
    } else if w == 5 {
        if full { "Friday"@ } else { "Fri"@ }
    } else {
        if full { "Saturday"@ } else { "Sat"@ }
    }
}

/// The English month name, abbreviated or full.
pub open spec fn month_name(m: u8, full: bool) -> Seq<char> {
    if m == 1 {
        if full { "January"@ } else { "Jan"@ }
    } else if m == 2 {
        if full { "February"@ } else { "Feb"@ }
    } else if m == 3 {
        if full { "March"@ } else { "Mar"@ }
    } else if m == 4 {
        if full { "April"@ } else { "Apr"@ }
    } else if m == 5 {
        if full { "May"@ } else { "May"@ }
    } else if m == 6 {
        if full { "June"@ } else { "Jun"@ }
    } else if m == 7 {
        if full { "July"@ } else { "Jul"@ }
    } else if m == 8 {
        if full { "August"@ } else { "Aug"@ }
    } else if m == 9 {
        if full { "September"@ } else { "Sep"@ }
    } else if m == 10 {
        if full { "October"@ } else { "Oct"@ }
    } else if m == 11 {
        if full { "November"@ } else { "Nov"@ }
    } else {
        if full { "December"@ } else { "Dec"@ }
    }
}

/// The UTC offset as `+hhmm` (`sep` false) or `+hh:mm` (`sep` true).
pub open spec fn offset_text(secs: int, sep: bool) -> Seq<char> {
    let a = if secs < 0 { -secs } else { secs };
    (if secs < 0 { "-"@ } else { "+"@ }) + zero_padded(a / 3600, 2) + (if sep { ":"@ } else { Seq::empty() })
        + zero_padded((a % 3600) / 60, 2)
}

/// The text of one conversion `%c`.
pub open spec fn conversion(d: DateFields, c: char) -> Seq<char> {
    let h12 = if d.hour % 12 == 0 { 12 } else { d.hour % 12 };
    if c == '%' {
        "%"@
    } else if c == 'a' {
        weekday_name(d.weekday, false)
    } else if c == 'A' {
        weekday_name(d.weekday, true)
    } else if c == 'b' || c == 'h' {
        month_name(d.month, false)
    } else if c == 'B' {
        month_name(d.month, true)
    } else if c == 'c' {
        weekday_name(d.weekday, false) + " "@ + month_name(d.month, false) + " "@ + space_padded(d.day as int, 2)
            + " "@ + zero_padded(d.hour as int, 2) + ":"@ + zero_padded(d.minute as int, 2) + ":"@
            + zero_padded(d.second as int, 2) + " "@ + zero_padded(d.year as int, 4)
    } else if c == 'd' {
        zero_padded(d.day as int, 2)
    } else if c == 'e' {
        space_padded(d.day as int, 2)
    } else if c == 'H' {
        zero_padded(d.hour as int, 2)
    } else if c == 'I' {
        zero_padded(h12 as int, 2)
    } else if c == 'j' {
        zero_padded(d.ordinal as int, 3)
    } else if c == 'm' {
        zero_padded(d.month as int, 2)
    } else if c == 'M' {
        zero_padded(d.minute as int, 2)
    } else if c == 'p' {
        if d.hour < 12 { "AM"@ } else { "PM"@ }
    } else if c == 'S' {
        zero_padded(d.second as int, 2)
    } else if c == 'U' {
        zero_padded((d.ordinal - d.weekday + 7) / 7, 2)
    } else if c == 'w' {
        int_text_of(d.weekday as int)
    } else if c == 'W' {
        zero_padded((d.ordinal - (d.weekday + 6) % 7 + 7) / 7, 2)
    } else if c == 'x' {
        zero_padded(d.month as int, 2) + "/"@ + zero_padded(d.day as int, 2) + "/"@ + zero_padded(
            year_mod(d.year),
            2,
        )
    } else if c == 'X' {
        zero_padded(d.hour as int, 2) + ":"@ + zero_padded(d.minute as int, 2) + ":"@ + zero_padded(
            d.second as int,
            2,
        )
    } else if c == 'y' {
        zero_padded(year_mod(d.year), 2)
    } else if c == 'Y' {
        zero_padded(d.year as int, 4)
    } else if c == 'z' {
        offset_text(d.offset_seconds as int, false)
    } else if c == 'Z' {
        if d.offset_seconds == 0 { "UTC"@ } else { "UTC"@ + offset_text(d.offset_seconds as int, true) }
    } else {
        seq!['%', c]
    }
}

/// The year's last two digits, with the year's sign (remainder truncated
/// toward zero).
pub open spec fn year_mod(y: i32) -> int {
    if y < 0 { -((-(y as int)) % 100) } else { (y as int) % 100 }
}

/// `n` in decimal.
pub open spec fn int_text_of(n: int) -> Seq<char> {
    ascii_text(int_decimal(n))
}

/// The format with each `%` conversion replaced; a `%` at the end stays.
pub open spec fn strftime_spec(d: DateFields, fmt: Seq<char>) -> Seq<char>
    decreases fmt.len(),
{
    if fmt.len() == 0 {
        Seq::empty()
    } else if fmt[0] != '%' {
        seq![fmt[0]] + strftime_spec(d, fmt.skip(1))
    } else if fmt.len() == 1 {
        seq!['%']
    } else {
        conversion(d, fmt[1]) + strftime_spec(d, fmt.skip(2))
    }
}

/// Append the bytes as characters.
fn push_byte_chars(out: &mut String, b: &[u8])
    ensures
        final(out)@ == old(out)@ + ascii_text(b@),
{
    let n = b.len();
    let mut i: usize = 0;
    while i < n
        invariant
            n == b@.len(),
            i <= n,
            out@ == old(out)@ + ascii_text(b@.take(i as int)),
        decreases n - i,
    {
        push_char(out, b[i] as char);
        i = i + 1;
        assert(out@ =~= old(out)@ + ascii_text(b@.take(i as int)));
    }
    assert(b@.take(n as int) =~= b@);
}

fn pad_spec(w: usize, zero: bool) -> (r: FormatSpec)
    ensures
        r == (FormatSpec {
            width: w,
            left_align: false,
            zero_pad: zero,
            plus: false,
            space: false,
            alt: false,
            precision: None,
        }),
{
    FormatSpec { width: w, left_align: false, zero_pad: zero, plus: false, space: false, alt: false, precision: None }
}

/// Append `n` zero-padded to `w` characters.
fn push_zero_padded(out: &mut String, n: i64, w: usize)
    ensures
        final(out)@ == old(out)@ + zero_padded(n as int, w),
{
    let raw = decimal_bytes(n);
    let p = apply_padding(raw.as_slice(), &pad_spec(w, true));
    push_byte_chars(out, p.as_slice());
}

/// Append `n` space-padded to `w` characters.
fn push_space_padded(out: &mut String, n: i64, w: usize)
    ensures
        final(out)@ == old(out)@ + space_padded(n as int, w),
{
    let raw = decimal_bytes(n);
    let p = apply_padding(raw.as_slice(), &pad_spec(w, false));
    push_byte_chars(out, p.as_slice());
}

fn weekday_str(w: u8, full: bool) -> (r: &'static str)
    ensures
        r@ == weekday_name(w, full),
{
    if w == 0 {
        if full { "Sunday" } else { "Sun" }
    } else if w == 1 {
        if full { "Monday" } else { "Mon" }
    } else if w == 2 {
        if full { "Tuesday" } else { "Tue" }
    } else if w == 3 {
        if full { "Wednesday" } else { "Wed" }
    } else if w == 4 {
        if full { "Thursday" } else { "Thu" }
    } else if w == 5 {
        if full { "Friday" } else { "Fri" }
    } else {
        if full { "Saturday" } else { "Sat" }
    }
}

fn month_str(m: u8, full: bool) -> (r: &'static str)
    ensures
        r@ == month_name(m, full),
{
    if m == 1 {
        if full { "January" } else { "Jan" }
    } else if m == 2 {
        if full { "February" } else { "Feb" }
    } else if m == 3 {
        if full { "March" } else { "Mar" }
    } else if m == 4 {
        if full { "April" } else { "Apr" }
    } else if m == 5 {
        if full { "May" } else { "May" }
    } else if m == 6 {
        if full { "June" } else { "Jun" }
    } else if m == 7 {
        if full { "July" } else { "Jul" }
    } else if m == 8 {
        if full { "August" } else { "Aug" }
    } else if m == 9 {
        if full { "September" } else { "Sep" }
    } else if m == 10 {
        if full { "October" } else { "Oct" }
    } else if m == 11 {
        if full { "November" } else { "Nov" }
    } else {
        if full { "December" } else { "Dec" }
    }
}

/// Append the UTC offset.
fn push_offset(out: &mut String, secs: i32, sep: bool)
    ensures
        final(out)@ == old(out)@ + offset_text(secs as int, sep),
{
    let a: i64 = if secs < 0 { -(secs as i64) } else { secs as i64 };
    out.append(if secs < 0 { "-" } else { "+" });
    push_zero_padded(out, a / 3600, 2);
    if sep {
        out.append(":");
    }
    push_zero_padded(out, (a % 3600) / 60, 2);
    assert(out@ =~= old(out)@ + offset_text(secs as int, sep));
}

/// Append the text of one conversion.
fn push_conversion(out: &mut String, d: &DateFields, c: char)
    requires
        fields_wf(*d),
    ensures
        final(out)@ == old(out)@ + conversion(*d, c),
{
    let h = d.hour % 12;
    let h12: u8 = if h == 0 { 12 } else { h };
    if c == '%' {
        out.append("%");
    } else if c == 'a' {
        out.append(weekday_str(d.weekday, false));
    } else if c == 'A' {
        out.append(weekday_str(d.weekday, true));
    } else if c == 'b' || c == 'h' {
        out.append(month_str(d.month, false));
    } else if c == 'B' {
        out.append(month_str(d.month, true));
    } else if c == 'c' {
        out.append(weekday_str(d.weekday, false));
        out.append(" ");
        out.append(month_str(d.month, false));
        out.append(" ");
        push_space_padded(out, d.day as i64, 2);
        out.append(" ");
        push_zero_padded(out, d.hour as i64, 2);
        out.append(":");
        push_zero_padded(out, d.minute as i64, 2);
        out.append(":");
        push_zero_padded(out, d.second as i64, 2);
        out.append(" ");
        push_zero_padded(out, d.year as i64, 4);
    } else if c == 'd' {
        push_zero_padded(out, d.day as i64, 2);
    } else if c == 'e' {
        push_space_padded(out, d.day as i64, 2);
    } else if c == 'H' {
        push_zero_padded(out, d.hour as i64, 2);
    } else if c == 'I' {
        push_zero_padded(out, h12 as i64, 2);
    } else if c == 'j' {
        push_zero_padded(out, d.ordinal as i64, 3);
    } else if c == 'm' {
        push_zero_padded(out, d.month as i64, 2);
    } else if c == 'M' {
        push_zero_padded(out, d.minute as i64, 2);
    } else if c == 'p' {
        out.append(if d.hour < 12 { "AM" } else { "PM" });
    } else if c == 'S' {
        push_zero_padded(out, d.second as i64, 2);
    } else if c == 'U' {
        push_zero_padded(out, (d.ordinal as i64 - d.weekday as i64 + 7) / 7, 2);
    } else if c == 'w' {
        push_byte_chars(out, decimal_bytes(d.weekday as i64).as_slice());
    } else if c == 'W' {
        push_zero_padded(out, (d.ordinal as i64 - ((d.weekday as i64 + 6) % 7) + 7) / 7, 2);
    } else if c == 'x' {
        push_zero_padded(out, d.month as i64, 2);
        out.append("/");
        push_zero_padded(out, d.day as i64, 2);
        out.append("/");
        push_zero_padded(out, year_rem(d.year), 2);
    } else if c == 'X' {
        push_zero_padded(out, d.hour as i64, 2);
        out.append(":");
        push_zero_padded(out, d.minute as i64, 2);
        out.append(":");
        push_zero_padded(out, d.second as i64, 2);
    } else if c == 'y' {
        push_zero_padded(out, year_rem(d.year), 2);
    } else if c == 'Y' {
        push_zero_padded(out, d.year as i64, 4);
    } else if c == 'z' {
        push_offset(out, d.offset_seconds, false);
    } else if c == 'Z' {
        out.append("UTC");
        if d.offset_seconds != 0 {
            push_offset(out, d.offset_seconds, true);
        }
    } else {
        push_char(out, '%');
        push_char(out, c);
    }
    assert(out@ =~= old(out)@ + conversion(*d, c));
}

/// The year's last two digits, with its sign.
fn year_rem(y: i32) -> (r: i64)
    ensures
        r as int == year_mod(y),
{
    if y < 0 {
        -(((-(y as i64)) % 100))
    } else {
        (y as i64) % 100
    }
}

/// Format the date by strftime-like specifiers.
pub fn strftime(d: &DateFields, fmt: &str) -> (r: String)
    requires
        fields_wf(*d),
    ensures
        r@ == strftime_spec(*d, fmt@),
{
    let n = fmt.unicode_len();
    let mut out = String::new();
    let mut i: usize = 0;
    assert(fmt@.skip(0) =~= fmt@);
    while i < n
        invariant
            n == fmt@.len(),
            i <= n,
            fields_wf(*d),
            out@ + strftime_spec(*d, fmt@.skip(i as int)) == strftime_spec(*d, fmt@),
        decreases n - i,
    {
        let c = fmt.get_char(i);
        let ghost rest = fmt@.skip(i as int);
        let ghost before = out@;
        if c != '%' {
            push_char(&mut out, c);
            proof {
                assert(rest.skip(1) =~= fmt@.skip(i + 1));
                assert(out@ + strftime_spec(*d, fmt@.skip(i + 1)) =~= before + strftime_spec(*d, rest));
            }
            i = i + 1;
        } else if i + 1 >= n {
            push_char(&mut out, '%');
            proof {
                assert(fmt@.skip(n as int) =~= Seq::<char>::empty());
                assert(out@ + strftime_spec(*d, fmt@.skip(n as int)) =~= before + strftime_spec(*d, rest));
            }
            i = n;
        } else {
            let k = fmt.get_char(i + 1);
            push_conversion(&mut out, d, k);
            proof {
                assert(rest.skip(2) =~= fmt@.skip(i + 2));
                assert(out@ + strftime_spec(*d, fmt@.skip(i + 2)) =~= before + strftime_spec(*d, rest));
            }
            i = i + 2;
        }
    }
    assert(fmt@.skip(n as int) =~= Seq::<char>::empty());
    assert(out@ =~= strftime_spec(*d, fmt@));
    out
}

/// The fields of an `os.date("*t")` table.
#[derive(Debug, Clone, Copy, PartialEq, Eq, Structural)]
pub struct DateTable {
    pub year: i64,
    pub month: i64,
    pub day: i64,
    pub hour: i64,
    pub min: i64,
    pub sec: i64,
    /// 1 (Sunday) to 7.
    pub wday: i64,
    pub yday: i64,
    pub isdst: bool,
}

/// The date table of the fields: weekdays count from 1 on Sunday, and
/// daylight saving time is never reported.
pub open spec fn date_table_spec(d: DateFields) -> DateTable {
    DateTable {
        year: d.year as i64,
        month: d.month as i64,
        day: d.day as i64,
        hour: d.hour as i64,
        min: d.minute as i64,
        sec: d.second as i64,
        wday: (d.weekday + 1) as i64,
        yday: d.ordinal as i64,
        isdst: false,
    }
}

/// The date table of the fields (see `date_table_spec`).
pub fn date_table(d: &DateFields) -> (r: DateTable)
    ensures
        r == date_table_spec(*d),
{
    DateTable {
        year: d.year as i64,
        month: d.month as i64,
        day: d.day as i64,
        hour: d.hour as i64,
        min: d.minute as i64,
        sec: d.second as i64,
        wday: d.weekday as i64 + 1,
        yday: d.ordinal as i64,
        isdst: false,
    }
}


proof fn lemma_zero_padded_two(n: int)
    requires
        0 <= n < 100,
    ensures
        zero_padded(n, 2) == seq![(48 + n / 10) as u8 as char, (48 + n % 10) as u8 as char],
{
    let f = FormatSpec {
        width: 2,
        left_align: false,
        zero_pad: true,
        plus: false,
        space: false,
        alt: false,
        precision: None,
    };
    if n < 10 {
        let raw = crate::decimal::nat_digits(n as nat);
        assert(raw == seq![(48 + n) as u8]);
        assert(int_decimal(n) == raw);
        assert(crate::format::signed_text(raw, f) == raw);
        let pd = raw.take(0) + crate::format::repeat_byte(48, 1) + raw.skip(0);
        assert(padded(raw, f) == pd);
        assert(pd =~= seq![48u8, (48 + n) as u8]);
        assert(ascii_text(pd) =~= seq![(48 + n / 10) as u8 as char, (48 + n % 10) as u8 as char]);
    } else {
        let raw = crate::decimal::nat_digits(n as nat);
        assert(crate::decimal::nat_digits((n / 10) as nat) == seq![(48 + n / 10) as u8]);
        assert(raw =~= seq![(48 + n / 10) as u8, (48 + n % 10) as u8]);
        assert(int_decimal(n) == raw);
        assert(crate::format::signed_text(raw, f) == raw);
        assert(padded(raw, f) == raw);
        assert(ascii_text(raw) =~= seq![(48 + n / 10) as u8 as char, (48 + n % 10) as u8 as char]);
    }
}

/// `%I` is the hour on the 12-hour clock: two decimal digits reading a
/// number from 1 to 12 that equals the hour modulo 12 (so noon and
/// midnight read 12, never 00).
pub proof fn law_twelve_hour_clock(d: DateFields)
    requires
        fields_wf(d),
    ensures
        conversion(d, 'I').len() == 2,
        ({
            let t = conversion(d, 'I');
            let v = (t[0] as u32 - 48) * 10 + (t[1] as u32 - 48);
            &&& '0' <= t[0] <= '9'
            &&& '0' <= t[1] <= '9'
            &&& 1 <= v <= 12
            &&& v % 12 == d.hour % 12
        }),
{
    let h12: int = if d.hour % 12 == 0 {
        12
    } else {
        d.hour as int % 12
    };
    lemma_zero_padded_two(h12);
    assert(conversion(d, 'I') == zero_padded(h12, 2));
}


/// `%H`, `%M` and `%S` are the hour (24-hour clock), the minute and the
/// second, each as two decimal digits.
pub proof fn law_clock_fields_two_digits(d: DateFields)
    requires
        fields_wf(d),
        d.minute < 60,
        d.second < 61,
    ensures
        conversion(d, 'H') == seq![(48 + d.hour / 10) as u8 as char, (48 + d.hour % 10) as u8 as char],
        conversion(d, 'M') == seq![(48 + d.minute / 10) as u8 as char, (48 + d.minute % 10) as u8 as char],
        conversion(d, 'S') == seq![(48 + d.second / 10) as u8 as char, (48 + d.second % 10) as u8 as char],
        conversion(d, 'p') == if d.hour < 12 {
            "AM"@
        } else {
            "PM"@
        },
{
    lemma_zero_padded_two(d.hour as int);
    lemma_zero_padded_two(d.minute as int);
    lemma_zero_padded_two(d.second as int);
}

} // verus!
