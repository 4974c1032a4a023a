//! Tests of the `string` library operations.
use shingetsu::string_lib::{
    byte, char, dedent, ends_with, find, gmatch, gsub, indent, len, lower, rep, reverse,
    rsplit_once, split, split_once, starts_with, string_match, strip_prefix, strip_suffix, sub,
    trim, trim_end, trim_prefix, trim_start, trim_suffix, truncate, upper, CharArg, FindResult,
    GsubMachine, LuaCapture, ReplValue,
};
use shingetsu::error::LibError;

fn runtime_message(e: LibError) -> String {
    match e {
        LibError::Runtime { message, .. } => message,
        other => panic!("expected runtime error, got {:?}", other),
    }
}

#[test]
fn sub_positive_and_negative_positions() {
    assert_eq!(sub(b"hello", 2, Some(4)), b"ell".to_vec());
    assert_eq!(sub(b"hello", -3, None), b"llo".to_vec());
    assert_eq!(sub(b"hello", 0, None), b"hello".to_vec());
    assert_eq!(sub(b"hello", 4, Some(2)), b"".to_vec());
    assert_eq!(sub(b"hello", -100, Some(100)), b"hello".to_vec());
}

#[test]
fn byte_codes() {
    assert_eq!(byte(b"ABC", None, None), vec![65]);
    assert_eq!(byte(b"ABC", Some(1), Some(-1)), vec![65, 66, 67]);
    assert_eq!(byte(b"ABC", Some(10), None), Vec::<i64>::new());
}

#[test]
fn char_builds_bytes_and_rejects_bad_codes() {
    assert_eq!(char(&[CharArg::Integer(72), CharArg::Integer(105)]).unwrap(), b"Hi".to_vec());
    match char(&[CharArg::Integer(65), CharArg::Integer(256)]) {
        Err(LibError::BadArgument { position, function, expected, got }) => {
            assert_eq!(position, 2);
            assert_eq!(function, "char");
            assert_eq!(expected, "integer in [0,255]");
            assert_eq!(got, "number");
        }
        other => panic!("unexpected {:?}", other),
    }
    match char(&[CharArg::Other("table".to_string())]) {
        Err(LibError::BadArgument { position, got, .. }) => {
            assert_eq!(position, 1);
            assert_eq!(got, "table");
        }
        other => panic!("unexpected {:?}", other),
    }
}

#[test]
fn len_upper_lower_reverse() {
    assert_eq!(len(b"hello"), 5);
    assert_eq!(upper(b"Hello, World!"), b"HELLO, WORLD!".to_vec());
    assert_eq!(lower(b"Hello, World!"), b"hello, world!".to_vec());
    assert_eq!(reverse(b"abc"), b"cba".to_vec());
    assert_eq!(upper(&[0xE9]), vec![0xE9]);
}

#[test]
fn rep_with_and_without_separator() {
    assert_eq!(rep(b"ab", 3, None), b"ababab".to_vec());
    assert_eq!(rep(b"ab", 3, Some(b", ")), b"ab, ab, ab".to_vec());
    assert_eq!(rep(b"ab", 0, Some(b"-")), b"".to_vec());
    assert_eq!(rep(b"ab", -2, None), b"".to_vec());
}

#[test]
fn trimming() {
    assert_eq!(trim(b" \t hi there \n"), b"hi there".to_vec());
    assert_eq!(trim(b"   "), b"".to_vec());
    assert_eq!(trim_start(b"  x  "), b"x  ".to_vec());
    assert_eq!(trim_end(b"  x \x0b"), b"  x".to_vec());
}

#[test]
fn prefixes_and_suffixes() {
    assert!(starts_with(b"hello", b"he"));
    assert!(!starts_with(b"he", b"hello"));
    assert!(ends_with(b"hello", b"llo"));
    assert_eq!(strip_prefix(b"hello", b"he"), Some(b"llo".to_vec()));
    assert_eq!(strip_prefix(b"hello", b"x"), None);
    assert_eq!(strip_suffix(b"hello", b"lo"), Some(b"hel".to_vec()));
    assert_eq!(trim_prefix(b"hello", b"x"), b"hello".to_vec());
    assert_eq!(trim_suffix(b"hello", b"o"), b"hell".to_vec());
}

#[test]
fn split_once_and_rsplit_once() {
    assert_eq!(split_once(b"a=b=c", b"="), Some((b"a".to_vec(), b"b=c".to_vec())));
    assert_eq!(rsplit_once(b"a=b=c", b"="), Some((b"a=b".to_vec(), b"c".to_vec())));
    assert_eq!(split_once(b"abc", b"="), None);
    assert_eq!(split_once(b"abc", b""), Some((b"".to_vec(), b"abc".to_vec())));
    assert_eq!(rsplit_once(b"abc", b""), Some((b"abc".to_vec(), b"".to_vec())));
}

#[test]
fn split_pieces() {
    assert_eq!(split(b"a,b,,c", None), vec![b"a".to_vec(), b"b".to_vec(), b"".to_vec(), b"c".to_vec()]);
    assert_eq!(split(b"a--b", Some(b"--")), vec![b"a".to_vec(), b"b".to_vec()]);
    assert_eq!(split(b"abc", Some(b"")), vec![b"a".to_vec(), b"b".to_vec(), b"c".to_vec()]);
    assert_eq!(split(b"", Some(b"")), Vec::<Vec<u8>>::new());
    assert_eq!(split(b"", None), vec![b"".to_vec()]);
}

#[test]
fn truncate_cases() {
    assert_eq!(truncate(b"hello", 10, None).unwrap(), b"hello".to_vec());
    assert_eq!(truncate(b"hello world", 8, Some(b"...")).unwrap(), b"hello...".to_vec());
    assert_eq!(truncate(b"hello", 2, Some(b"...")).unwrap(), b"..".to_vec());
    match truncate(b"x", -1, None) {
        Err(LibError::BadArgument { position, got, .. }) => {
            assert_eq!(position, 2);
            assert_eq!(got, "-1");
        }
        other => panic!("unexpected {:?}", other),
    }
}

#[test]
fn dedent_and_indent() {
    assert_eq!(dedent(b"    a\n      b\n\n    c"), b"a\n  b\n\nc".to_vec());
    assert_eq!(dedent(b"  x\r\n  y"), b"x\r\ny".to_vec());
    assert_eq!(indent(b"a\n\nb", b"> "), b"> a\n\n> b".to_vec());
    assert_eq!(indent(b"", b"> "), b"".to_vec());
}

#[test]
fn find_plain_and_pattern() {
    match find(b"hello world", b"o w", None, Some(true)).unwrap() {
        FindResult::Match(a, b, caps) => {
            assert_eq!((a, b), (5, 7));
            assert!(caps.is_empty());
        }
        FindResult::NotFound => panic!("expected a match"),
    }
    match find(b"key=val", b"(%a+)=(%a+)", None, None).unwrap() {
        FindResult::Match(a, b, caps) => {
            assert_eq!((a, b), (1, 7));
            assert_eq!(caps, vec![LuaCapture::Bytes(b"key".to_vec()), LuaCapture::Bytes(b"val".to_vec())]);
        }
        FindResult::NotFound => panic!("expected a match"),
    }
    match find(b"abcabc", b"b", Some(3), None).unwrap() {
        FindResult::Match(a, b, _) => assert_eq!((a, b), (5, 5)),
        FindResult::NotFound => panic!("expected a match"),
    }
    assert!(matches!(find(b"abc", b"x", None, None).unwrap(), FindResult::NotFound));
    let e = find(b"abc", b"[a", None, None).unwrap_err();
    assert_eq!(runtime_message(e), "malformed pattern (missing ']')");
}

#[test]
fn match_returns_captures_or_whole() {
    assert_eq!(string_match(b"hello 42", b"%d+", None).unwrap(), Some(vec![LuaCapture::Bytes(b"42".to_vec())]));
    assert_eq!(
        string_match(b"hello", b"()ll()", None).unwrap(),
        Some(vec![LuaCapture::Position(3), LuaCapture::Position(5)])
    );
    assert_eq!(string_match(b"hello", b"z", None).unwrap(), None);
}

#[test]
fn gmatch_iterates_matches() {
    let mut g = gmatch(b"one two  three", b"%a+", None).unwrap();
    let mut words = Vec::new();
    while let Some(caps) = g.next_match() {
        words.push(caps);
    }
    assert_eq!(
        words,
        vec![
            vec![LuaCapture::Bytes(b"one".to_vec())],
            vec![LuaCapture::Bytes(b"two".to_vec())],
            vec![LuaCapture::Bytes(b"three".to_vec())],
        ]
    );
    let mut g = gmatch(b"abc", b"", None).unwrap();
    let mut n = 0;
    while g.next_match().is_some() {
        n += 1;
    }
    assert_eq!(n, 4);
}

#[test]
fn gsub_with_replacement_string() {
    assert_eq!(gsub(b"hello world", b"o", b"0", None).unwrap(), (b"hell0 w0rld".to_vec(), 2));
    assert_eq!(gsub(b"hello world", b"(%w+)", b"<%1>", None).unwrap(), (b"<hello> <world>".to_vec(), 2));
    assert_eq!(gsub(b"abc", b"", b"-", None).unwrap(), (b"-a-b-c-".to_vec(), 4));
    assert_eq!(gsub(b"aaa", b"^a", b"X", Some(5)).unwrap(), (b"Xaa".to_vec(), 1));
    assert_eq!(gsub(b"aaa", b"a", b"b", Some(2)).unwrap(), (b"bba".to_vec(), 2));
    assert_eq!(gsub(b"x = 1", b"()=()", b"%1|%2", None).unwrap(), (b"x 3|4 1".to_vec(), 1));
    assert_eq!(gsub(b"50", b"%d", b"%%", None).unwrap(), (b"%%".to_vec(), 2));
    let e = gsub(b"abc", b"b", b"%", None).unwrap_err();
    assert_eq!(runtime_message(e), "invalid use of '%' in replacement string");
    let e = gsub(b"abc", b"(b)", b"%2", None).unwrap_err();
    assert_eq!(runtime_message(e), "invalid capture index %2");
}

#[test]
fn gsub_machine_with_resolved_values() {
    let mut m = GsubMachine::new(b"a b c", b"%a", None).unwrap();
    let mut k = 0;
    while let Some(req) = m.next_match().unwrap() {
        assert_eq!(req.args.len(), 1);
        let v = match k {
            0 => ReplValue::Text(b"X".to_vec()),
            1 => ReplValue::Keep,
            _ => ReplValue::Integer(42),
        };
        m.supply(v).unwrap();
        k += 1;
    }
    assert_eq!(m.finish(), (b"X b 42".to_vec(), 3));
    let mut m = GsubMachine::new(b"ab", b"a", None).unwrap();
    let _ = m.next_match().unwrap().unwrap();
    let e = m.supply(ReplValue::Invalid("table".to_string())).unwrap_err();
    assert_eq!(runtime_message(e), "invalid replacement value (a table)");
}

#[test]
fn find_from_past_the_end_finds_nothing() {
    assert!(matches!(find(b"abc", b"", Some(10), None).unwrap(), FindResult::NotFound));
    assert!(matches!(find(b"abc", b"", Some(5), Some(true)).unwrap(), FindResult::NotFound));
    match find(b"abc", b"", Some(4), None).unwrap() {
        FindResult::Match(a, b, _) => assert_eq!((a, b), (4, 3)),
        FindResult::NotFound => panic!("expected a match"),
    }
}

#[test]
fn gsub_without_replacement_keeps_subject() {
    let (out, n) = gsub(b"hello world", b"xyz", b"_", None).unwrap();
    assert_eq!((out, n), (b"hello world".to_vec(), 0));
    let (out, n) = gsub(b"aaa", b"^a", b"b", None).unwrap();
    assert_eq!((out, n), (b"baa".to_vec(), 1));
}

#[test]
fn gsub_errors_carry_position_and_hints() {
    let mut m = GsubMachine::new(b"ab", b"a", None).unwrap();
    let _ = m.next_match().unwrap().unwrap();
    match m.supply(ReplValue::Invalid("table".to_string())).unwrap_err() {
        LibError::Runtime { message, arg_position, hints } => {
            assert_eq!(message, "invalid replacement value (a table)");
            assert_eq!(arg_position, Some(3));
            assert_eq!(hints.len(), 1);
            assert!(hints[0].starts_with("the third argument to `string.gsub`"));
        }
        other => panic!("unexpected error {other:?}"),
    }
    match gsub(b"abc", b"b", b"%", None).unwrap_err() {
        LibError::Runtime { message, arg_position, hints } => {
            assert_eq!(message, "invalid use of '%' in replacement string");
            assert_eq!(arg_position, None);
            assert_eq!(hints.len(), 1);
        }
        other => panic!("unexpected error {other:?}"),
    }
}
