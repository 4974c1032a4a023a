//! Tests of the smaller library pieces: `select`, `tonumber` with a base,
//! stack levels, regex captures and templates, shell quoting, decimals.
use shingetsu::builtins::{select, tonumber_base, SelectIndex, Selected};
use shingetsu::debug::parse_level;
use shingetsu::decimal::{decimal_bytes, decimal_string};
use shingetsu::regex_lib::{init_to_offset, CapturesData, LuaBytesCaptures, LuaCaptures};
use shingetsu::shlex_lib;
use shingetsu::error::LibError;
use shingetsu::process::append_capped;

#[test]
fn select_counts_and_offsets() {
    assert_eq!(select(&SelectIndex::Str(b"#".to_vec()), 3).unwrap(), Selected::Count(3));
    assert_eq!(select(&SelectIndex::Num(2), 3).unwrap(), Selected::From(1));
    assert_eq!(select(&SelectIndex::Num(-1), 3).unwrap(), Selected::From(2));
    assert_eq!(select(&SelectIndex::Num(-10), 3).unwrap(), Selected::From(0));
    assert_eq!(select(&SelectIndex::Num(10), 3).unwrap(), Selected::From(3));
    match select(&SelectIndex::Num(0), 3) {
        Err(LibError::BadArgument { expected, got, .. }) => {
            assert_eq!(expected, "index out of range");
            assert_eq!(got, "0");
        }
        other => panic!("unexpected {:?}", other),
    }
    match select(&SelectIndex::Str(b"x".to_vec()), 3) {
        Err(LibError::BadArgument { expected, .. }) => assert_eq!(expected, "number or string \"#\""),
        other => panic!("unexpected {:?}", other),
    }
}

#[test]
fn tonumber_with_base() {
    assert_eq!(tonumber_base(b"ff", 16), Some(255));
    assert_eq!(tonumber_base(b" -101 ", 2), Some(-5));
    assert_eq!(tonumber_base(b"+Z", 36), Some(35));
    assert_eq!(tonumber_base(b"8", 8), None);
    assert_eq!(tonumber_base(b"", 10), None);
    assert_eq!(tonumber_base(b"-", 10), None);
    assert_eq!(tonumber_base(b"9223372036854775807", 10), Some(i64::MAX));
    assert_eq!(tonumber_base(b"-9223372036854775808", 10), Some(i64::MIN));
    assert_eq!(tonumber_base(b"9223372036854775808", 10), None);
}

#[test]
fn stack_levels() {
    assert_eq!(parse_level(Some(3), 1), 3);
    assert_eq!(parse_level(Some(-2), 1), 0);
    assert_eq!(parse_level(None, 1), 1);
}

fn sample_captures() -> CapturesData {
    CapturesData {
        haystack: b"key=value".to_vec(),
        groups: vec![Some((0, 9)), Some((0, 3)), Some((4, 9)), None],
        names: vec![None, Some(b"k".to_vec()), Some(b"v".to_vec()), Some(b"opt".to_vec())],
    }
}

#[test]
fn captures_access() {
    let c = LuaCaptures::new(sample_captures());
    assert_eq!(c.get(0), Some(b"key=value".to_vec()));
    assert_eq!(c.get(2), Some(b"value".to_vec()));
    assert_eq!(c.get(3), None);
    assert_eq!(c.get(-1), None);
    assert_eq!(c.start(2), Some(5));
    assert_eq!(c.end_(2), Some(9));
    assert_eq!(c.name(1), Some(b"k".to_vec()));
    assert_eq!(c.name(0), None);
    assert_eq!(c.by_name(b"v"), Some(b"value".to_vec()));
    assert_eq!(c.by_name(b"nope"), None);
    assert_eq!(c.len(), 4);
}

#[test]
fn template_expansion() {
    let c = LuaBytesCaptures::new(sample_captures());
    assert_eq!(c.expand(b"$2=$1"), b"value=key".to_vec());
    assert_eq!(c.expand(b"${v}:${k}"), b"value:key".to_vec());
    assert_eq!(c.expand(b"$$ $ ${unterminated"), b"$ $ ${unterminated".to_vec());
    assert_eq!(c.expand(b"[$opt][$9][$v]"), b"[][][value]".to_vec());
    assert_eq!(c.expand(b"$0!"), b"key=value!".to_vec());
}

#[test]
fn init_offsets() {
    assert_eq!(init_to_offset(None, 5), 0);
    assert_eq!(init_to_offset(Some(3), 5), 2);
    assert_eq!(init_to_offset(Some(100), 5), 5);
    assert_eq!(init_to_offset(Some(-2), 5), 3);
    assert_eq!(init_to_offset(Some(-100), 5), 0);
}

#[test]
fn shell_words() {
    assert_eq!(
        shlex_lib::split(b"a 'b c' \"d\"").unwrap(),
        vec![b"a".to_vec(), b"b c".to_vec(), b"d".to_vec()]
    );
    assert_eq!(
        shlex_lib::split(b"'open").unwrap_err(),
        "input ends in an unbalanced quote or trailing backslash"
    );
    assert_eq!(shlex_lib::quote(b"").unwrap(), b"''".to_vec());
    assert_eq!(shlex_lib::quote(b"plain").unwrap(), b"plain".to_vec());
    assert!(shlex_lib::quote(b"a\0b").is_err());
    assert_eq!(shlex_lib::join(&[b"a".to_vec(), b"b c".to_vec()]).unwrap(), b"a 'b c'".to_vec());
    match shlex_lib::join(&[b"ok".to_vec(), b"x\0".to_vec()]) {
        Err(LibError::BadArgument { got, .. }) => assert_eq!(got, "a nul byte in element 2"),
        other => panic!("unexpected {:?}", other),
    }
}

#[test]
fn decimal_renderings() {
    assert_eq!(decimal_bytes(0), b"0".to_vec());
    assert_eq!(decimal_bytes(-120), b"-120".to_vec());
    assert_eq!(decimal_string(i64::MIN), "-9223372036854775808");
    assert_eq!(decimal_string(i64::MAX), "9223372036854775807");
}

#[test]
fn capped_capture() {
    let mut buf = b"ab".to_vec();
    let mut truncated = false;
    append_capped(&mut buf, b"cdef", Some(4), &mut truncated);
    assert_eq!(buf, b"abcd".to_vec());
    assert!(truncated);
    let mut t2 = false;
    append_capped(&mut buf, b"x", Some(4), &mut t2);
    assert_eq!(buf, b"abcd".to_vec());
    assert!(t2);
    let mut t3 = false;
    let mut small = Vec::new();
    append_capped(&mut small, b"xy", Some(4), &mut t3);
    append_capped(&mut small, b"zz", None, &mut t3);
    assert_eq!(small, b"xyzz".to_vec());
    assert!(!t3);
}

#[test]
fn tonumber_base_trims_unicode_white_space() {
    assert_eq!(tonumber_base("\u{a0}ff\u{3000}".as_bytes(), 16), Some(255));
    assert_eq!(tonumber_base("\u{2003}-101\n".as_bytes(), 2), Some(-5));
    assert_eq!(tonumber_base("４２".as_bytes(), 10), None);
    assert_eq!(tonumber_base(&[0xff, b'1'], 10), None);
}
