//! Decimal renderings of integers, as bytes and as text.
use vstd::prelude::*;

verus! {

/// The ASCII decimal digits of `n`, most significant first.
pub open spec fn nat_digits(n: nat) -> Seq<u8>
    decreases n,
{
    if n < 10 {
        seq![(48 + n) as u8]
    } else {
        nat_digits(n / 10).push((48 + n % 10) as u8)
    }
}

/// The ASCII decimal rendering of `n`, with a leading `-` when negative.
pub open spec fn int_decimal(n: int) -> Seq<u8> {
    if n < 0 {
        seq![45u8] + nat_digits((-n) as nat)
    } else {
        nat_digits(n as nat)
    }
}

/// The characters of an ASCII byte string.
pub open spec fn ascii_text(b: Seq<u8>) -> Seq<char> {
    b.map_values(|x: u8| x as char)
}

/// The decimal rendering of `n` as text.
pub open spec fn int_text(n: int) -> Seq<char> {
    ascii_text(int_decimal(n))
}

/// Append the decimal digits of `n` to `out`.
pub fn push_digits(out: &mut Vec<u8>, n: u64)
    ensures
        final(out)@ == old(out)@ + nat_digits(n as nat),
    decreases n,
{
    if n >= 10 {
        push_digits(out, n / 10);
    }
    out.push((48 + n % 10) as u8);
    proof {
        if n >= 10 {
            assert(nat_digits(n as nat) == nat_digits((n / 10) as nat).push((48 + n % 10) as u8));
        } else {
            assert(nat_digits(n as nat) =~= seq![(48 + n) as u8]);
        }
    }
}

/// The magnitude of `n` as an unsigned integer (`i64::MIN` included).
pub fn magnitude(n: i64) -> (r: u64)
    ensures
        r as int == (if n < 0 {
            -n
        } else {
            n as int
        }),
{
    if n < 0 {
        let m = -(n + 1);
        (m as u64) + 1
    } else {
        n as u64
    }
}

/// Append the decimal rendering of `n` to `out`.
pub fn push_decimal(out: &mut Vec<u8>, n: i64)
    ensures
        final(out)@ == old(out)@ + int_decimal(n as int),
{
    if n < 0 {
        out.push(45u8);
        let m = magnitude(n);
        push_digits(out, m);
        assert(out@ =~= old(out)@ + int_decimal(n as int));
    } else {
        push_digits(out, n as u64);
    }
}

/// The decimal rendering of `n` as bytes.
pub fn decimal_bytes(n: i64) -> (r: Vec<u8>)
    ensures
        r@ == int_decimal(n as int),
{
    let mut out: Vec<u8> = Vec::new();
    push_decimal(&mut out, n);
    assert(out@ =~= int_decimal(n as int));
    out
}

/// The one-character text of a decimal digit.
fn digit_str(d: u64) -> (r: &'static str)
    requires
        d < 10,
    ensures
        r@ == seq![(48 + d) as u8 as char],
{
    proof {
        reveal_strlit("0");
        reveal_strlit("1");
        reveal_strlit("2");
        reveal_strlit("3");
        reveal_strlit("4");
        reveal_strlit("5");
        reveal_strlit("6");
        reveal_strlit("7");
        reveal_strlit("8");
        reveal_strlit("9");
    }
    let r = match d {
        0 => "0",
        1 => "1",
        2 => "2",
        3 => "3",
        4 => "4",
        5 => "5",
        6 => "6",
        7 => "7",
        8 => "8",
        _ => "9",
    };
    assert(r@ =~= seq![(48 + d) as u8 as char]);
    r
}

/// Append the decimal digits of `n` to the text `out`.
pub fn append_digits(out: &mut String, n: u64)
    ensures
        final(out)@ == old(out)@ + ascii_text(nat_digits(n as nat)),
    decreases n,
{
    if n >= 10 {
        append_digits(out, n / 10);
    }
    out.append(digit_str(n % 10));
    proof {
        if n >= 10 {
            let d = nat_digits((n / 10) as nat);
            assert(nat_digits(n as nat) == d.push((48 + n % 10) as u8));
            assert(ascii_text(d.push((48 + n % 10) as u8)) =~= ascii_text(d) + seq![
                (48 + n % 10) as u8 as char,
            ]);
        } else {
            assert(nat_digits(n as nat) =~= seq![(48 + n) as u8]);
            assert(ascii_text(seq![(48 + n) as u8]) =~= seq![(48 + n) as u8 as char]);
        }
    }
}

/// Append the decimal rendering of `n` to the text `out`.
pub fn append_decimal(out: &mut String, n: i64)
    ensures
        final(out)@ == old(out)@ + int_text(n as int),
{
    if n < 0 {
        proof {
            reveal_strlit("-");
        }
        out.append("-");
        let m = magnitude(n);
        append_digits(out, m);
        proof {
            let d = nat_digits(m as nat);
            assert(ascii_text(seq![45u8] + d) =~= seq!['-'] + ascii_text(d));
            assert(out@ =~= old(out)@ + int_text(n as int));
        }
    } else {
        append_digits(out, n as u64);
    }
}

/// The decimal rendering of `n` as text.
pub fn decimal_string(n: i64) -> (r: String)
    ensures
        r@ == int_text(n as int),
{
    let mut out = String::new();
    append_decimal(&mut out, n);
    assert(out@ =~= int_text(n as int));
    out
}

} // verus!
