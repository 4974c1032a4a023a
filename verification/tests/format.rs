//! Tests of `string.format`: specifications, padding, integer renderings,
//! quoting, numeric strings, the step-wise formatter and its errors.
use shingetsu::coerce::{coerce_to_integer, parse_numeric_string, ParsedNumeric};
use shingetsu::error::LibError;
use shingetsu::format::{
    apply_padding, c_format_hex, c_format_int, c_format_oct, c_format_uint, parse_format_spec,
    quote_bytes, string_format, FormatArg, FormatStep, Formatter,
};

fn fmt(f: &str, args: &[FormatArg]) -> Result<Option<Vec<u8>>, LibError> {
    string_format(f.as_bytes(), args)
}

fn text(f: &str, args: &[FormatArg]) -> String {
    String::from_utf8(fmt(f, args).unwrap().unwrap()).unwrap()
}

fn s(t: &str) -> FormatArg {
    FormatArg::Str(t.as_bytes().to_vec())
}

fn runtime_message(r: Result<Option<Vec<u8>>, LibError>) -> String {
    match r {
        Err(LibError::Runtime { message, .. }) => message,
        other => panic!("expected a runtime error, got {:?}", other),
    }
}

#[test]
fn documented_examples() {
    assert_eq!(text("%d items", &[FormatArg::Integer(42)]), "42 items");
    assert_eq!(text("%05d", &[FormatArg::Integer(7)]), "00007");
    assert_eq!(text("%-10s|", &[s("hi")]), "hi        |");
    assert_eq!(text("%x %X", &[FormatArg::Integer(255), FormatArg::Integer(255)]), "ff FF");
    assert_eq!(text("%q", &[s("he said \"hi\"")]), "\"he said \\\"hi\\\"\"");
    assert_eq!(text("%s = %d", &[s("answer"), FormatArg::Integer(42)]), "answer = 42");
}

#[test]
fn literal_text_and_percent() {
    assert_eq!(text("plain text", &[]), "plain text");
    assert_eq!(text("100%%", &[]), "100%");
    assert_eq!(text("%%d", &[]), "%d");
    assert_eq!(text("", &[FormatArg::Nil]), "");
}

#[test]
fn integer_flags_and_widths() {
    assert_eq!(text("%+d", &[FormatArg::Integer(5)]), "+5");
    assert_eq!(text("% d", &[FormatArg::Integer(5)]), " 5");
    assert_eq!(text("% d", &[FormatArg::Integer(-5)]), "-5");
    assert_eq!(text("%-5d|", &[FormatArg::Integer(42)]), "42   |");
    assert_eq!(text("%5d|", &[FormatArg::Integer(42)]), "   42|");
    assert_eq!(text("%05d", &[FormatArg::Integer(-42)]), "-0042");
    assert_eq!(text("%+05d", &[FormatArg::Integer(42)]), "+0042");
    assert_eq!(text("%i", &[FormatArg::Integer(i64::MIN)]), "-9223372036854775808");
    assert_eq!(text("%1d", &[FormatArg::Integer(12345)]), "12345");
}

#[test]
fn unsigned_hex_octal_and_char() {
    assert_eq!(text("%u", &[FormatArg::Integer(-1)]), "18446744073709551615");
    assert_eq!(text("%x", &[FormatArg::Integer(-1)]), "ffffffffffffffff");
    assert_eq!(text("%#x", &[FormatArg::Integer(255)]), "0xff");
    assert_eq!(text("%#X", &[FormatArg::Integer(255)]), "0XFF");
    assert_eq!(text("%08x", &[FormatArg::Integer(48879)]), "0000beef");
    assert_eq!(text("%o", &[FormatArg::Integer(8)]), "10");
    assert_eq!(text("%#o", &[FormatArg::Integer(8)]), "010");
    assert_eq!(text("%#o", &[FormatArg::Integer(0)]), "0");
    assert_eq!(text("%c%c", &[FormatArg::Integer(72), FormatArg::Integer(0x169)]), "Hi");
}

#[test]
fn string_conversions() {
    assert_eq!(text("%.3s", &[s("abcdef")]), "abc");
    assert_eq!(text("%5.1s|", &[s("xyz")]), "    x|");
    assert_eq!(text("%.10s", &[s("short")]), "short");
    assert_eq!(text("%.s|", &[s("kept")]), "kept|");
    assert_eq!(text("%s %s %s", &[FormatArg::Nil, FormatArg::Boolean(true), FormatArg::Boolean(false)]), "nil true false");
    assert_eq!(text("%s", &[FormatArg::Integer(-17)]), "-17");
    assert_eq!(text("%s", &[FormatArg::Other(String::from("table"))]), "table");
    assert_eq!(text("%.2s", &[s("héllo")]), "hé");
    assert_eq!(text("%5s", &[s("-3")]), "   -3");
}

#[test]
fn quoting() {
    assert_eq!(quote_bytes(b"a\nb\\c\"d\re\0f\x1ag"), b"\"a\\nb\\\\c\\\"d\\re\\0f\\26g\"".to_vec());
    assert_eq!(text("%q", &[FormatArg::Integer(10)]), "\"10\"");
    assert_eq!(text("%q", &[s("")]), "\"\"");
}

#[test]
fn numeric_strings_for_integer_conversions() {
    assert_eq!(text("%d", &[s("42")]), "42");
    assert_eq!(text("%d", &[s("  0x1F ")]), "31");
    assert_eq!(text("%d", &[s(" -7 ")]), "-7");
    assert_eq!(text("%x", &[s("-0x10")]), "fffffffffffffff0");
    assert_eq!(fmt("%d", &[s("abc")]).unwrap(), None);
    match fmt("%d", &[s("nope")]) {
        Err(LibError::BadArgument { position, function, expected, got }) => {
            assert_eq!(position, 2);
            assert_eq!(function, "format");
            assert_eq!(expected, "number");
            assert_eq!(got, "string");
        }
        other => panic!("unexpected {:?}", other),
    }
    // A float-looking string is read by the caller.
    assert_eq!(fmt("%d", &[s("1.5")]).unwrap(), None);
}

#[test]
fn parse_numeric_string_cases() {
    assert_eq!(parse_numeric_string(b"42"), ParsedNumeric::Integer(42));
    assert_eq!(parse_numeric_string(b"\t+42\n"), ParsedNumeric::Integer(42));
    assert_eq!(parse_numeric_string(b"0xff"), ParsedNumeric::Integer(255));
    assert_eq!(parse_numeric_string(b"0X+ff"), ParsedNumeric::Integer(255));
    assert_eq!(parse_numeric_string(b"-0x10"), ParsedNumeric::Integer(-16));
    assert_eq!(parse_numeric_string(b"0xffffffffffffffff"), ParsedNumeric::Integer(-1));
    assert_eq!(parse_numeric_string(b"-0x8000000000000000"), ParsedNumeric::Integer(i64::MIN));
    assert_eq!(parse_numeric_string(b"-9223372036854775808"), ParsedNumeric::Integer(i64::MIN));
    assert_eq!(parse_numeric_string(b"0x"), ParsedNumeric::NotNumeric);
    assert_eq!(parse_numeric_string(b"0x1g"), ParsedNumeric::NotNumeric);
    assert_eq!(parse_numeric_string(b"0x10000000000000000"), ParsedNumeric::NotNumeric);
    assert_eq!(parse_numeric_string(b"   "), ParsedNumeric::NotNumeric);
    assert_eq!(parse_numeric_string(b""), ParsedNumeric::NotNumeric);
    assert_eq!(parse_numeric_string(b"1e5"), ParsedNumeric::Undecided);
    assert_eq!(parse_numeric_string(b"9223372036854775808"), ParsedNumeric::Undecided);
    assert_eq!(parse_numeric_string(b"abc"), ParsedNumeric::Undecided);
    assert_eq!(parse_numeric_string(b" nan "), ParsedNumeric::NotNumeric);
    assert_eq!(parse_numeric_string(b"-Inf"), ParsedNumeric::NotNumeric);
    assert_eq!(parse_numeric_string("４２".as_bytes()), ParsedNumeric::Undecided);
}

#[test]
fn coerce_to_integer_cases() {
    assert_eq!(coerce_to_integer(&FormatArg::Integer(3), 2, "format").unwrap(), Some(3));
    assert_eq!(coerce_to_integer(&FormatArg::Float, 2, "format").unwrap(), None);
    match coerce_to_integer(&FormatArg::Boolean(true), 4, "pack") {
        Err(LibError::BadArgument { position, function, got, .. }) => {
            assert_eq!(position, 4);
            assert_eq!(function, "pack");
            assert_eq!(got, "boolean");
        }
        other => panic!("unexpected {:?}", other),
    }
}

#[test]
fn format_errors() {
    assert_eq!(runtime_message(fmt("abc%", &[])), "invalid format string (ends with '%')");
    assert_eq!(
        runtime_message(fmt("%-5", &[FormatArg::Integer(1)])),
        "invalid format string (missing conversion specifier)"
    );
    assert_eq!(runtime_message(fmt("%d", &[])), "bad argument #2 to 'format' (no value)");
    assert_eq!(
        runtime_message(fmt("%d %d", &[FormatArg::Integer(1)])),
        "bad argument #3 to 'format' (no value)"
    );
    assert_eq!(
        runtime_message(fmt("%y", &[FormatArg::Integer(1)])),
        "invalid format string (invalid conversion specifier '%y')"
    );
    match fmt("%d", &[FormatArg::Nil]) {
        Err(LibError::BadArgument { position, got, .. }) => {
            assert_eq!(position, 2);
            assert_eq!(got, "nil");
        }
        other => panic!("unexpected {:?}", other),
    }
    match fmt("%s %f", &[s("x"), FormatArg::Boolean(false)]) {
        Err(LibError::BadArgument { position, expected, got, .. }) => {
            assert_eq!(position, 3);
            assert_eq!(expected, "number");
            assert_eq!(got, "boolean");
        }
        other => panic!("unexpected {:?}", other),
    }
}

#[test]
fn formatter_hands_off_floats_and_addresses() {
    let args = [FormatArg::Integer(1), FormatArg::Float, FormatArg::Other(String::from("table"))];
    let mut f = Formatter::new(b"%d and %.2f, %p!");
    match f.step(&args).unwrap() {
        FormatStep::Outside { spec, conv, arg } => {
            assert_eq!(spec, b"%.2f".to_vec());
            assert_eq!(conv, b'f');
            assert_eq!(arg, 1);
        }
        FormatStep::Done => panic!("expected a hand-off"),
    }
    f.push_text(b"2.50");
    match f.step(&args).unwrap() {
        FormatStep::Outside { spec, conv, arg } => {
            assert_eq!(spec, b"%p".to_vec());
            assert_eq!(conv, b'p');
            assert_eq!(arg, 2);
        }
        FormatStep::Done => panic!("expected a hand-off"),
    }
    f.push_text(b"0x1234");
    assert!(matches!(f.step(&args).unwrap(), FormatStep::Done));
    assert_eq!(f.finish(), b"1 and 2.50, 0x1234!".to_vec());
    assert_eq!(fmt("%f", &[FormatArg::Integer(1)]).unwrap(), None);
}

#[test]
fn spec_parsing_and_padding() {
    let info = parse_format_spec(b"%-+ #012.7d");
    assert!(info.left_align && info.plus && info.space && info.alt && info.zero_pad);
    assert_eq!(info.width, 12);
    assert_eq!(info.precision, Some(7));
    let plain = parse_format_spec(b"%d");
    assert_eq!(plain.width, 0);
    assert_eq!(plain.precision, None);
    let huge = parse_format_spec(b"%99999999999999999999999d");
    assert_eq!(huge.width, usize::MAX);
    assert_eq!(apply_padding(b"-7", &parse_format_spec(b"%05d")), b"-0007".to_vec());
    assert_eq!(apply_padding(b"7", &parse_format_spec(b"% 3d")), b"  7".to_vec());
    assert_eq!(c_format_int(b"%+d", 0), b"+0".to_vec());
    assert_eq!(c_format_uint(b"%3u", 5), b"  5".to_vec());
    assert_eq!(c_format_hex(b"%#06x", 10, false), b"0000xa".to_vec());
    assert_eq!(c_format_oct(b"%o", -1), b"1777777777777777777777".to_vec());
}

#[test]
fn invalid_utf8_strings_are_read_lossily() {
    let arg = [FormatArg::Str(vec![0xff, b'a'])];
    assert_eq!(text("%s", &arg), "\u{fffd}a");
    assert_eq!(text("%q", &arg), "\"\u{fffd}a\"");
    assert_eq!(text("%.1s|", &arg), "\u{fffd}|");
}

#[test]
fn format_string_errors_carry_hints() {
    match fmt("abc%", &[]).unwrap_err() {
        LibError::Runtime { hints, arg_position, .. } => {
            assert_eq!(arg_position, None);
            assert_eq!(hints, vec!["every `%` must be followed by a conversion specifier; use `%%` to insert a literal `%`".to_string()]);
        }
        other => panic!("unexpected error {other:?}"),
    }
    match fmt("%-5", &[]).unwrap_err() {
        LibError::Runtime { hints, .. } => assert!(hints[0].starts_with("the `%` was followed only by flags")),
        other => panic!("unexpected error {other:?}"),
    }
}
