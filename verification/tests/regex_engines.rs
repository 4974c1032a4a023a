//! Tests of the two regular-expression engines of the `regex` library:
//! compiling, searching, walking, splitting and replacing.
use shingetsu::error::LibError;
use shingetsu::regex_bytes::{compile_bytes, BytesRegexOpts};
use shingetsu::regex_fancy::{compile, escape, RegexOpts};
use shingetsu::regex_search::{
    replace_count, replacement_from_value, split_limit, MatchCursor, Replacement,
    ReplacementValue,
};

#[test]
fn named_groups_by_name() {
    let re = compile(b"(?<year>\\d{4})-(?<month>\\d{2})", None).unwrap();
    let caps = re.captures(b"2024-08", None).unwrap().unwrap();
    assert_eq!(caps.by_name(b"year"), Some(b"2024".to_vec()));
    assert_eq!(caps.by_name(b"month"), Some(b"08".to_vec()));
    assert_eq!(caps.get(0), Some(b"2024-08".to_vec()));
    assert_eq!(caps.len(), 3);
}

#[test]
fn backreference_needs_the_repeat() {
    let re = compile(b"(\\w+) \\1", None).unwrap();
    assert_eq!(re.is_match(b"hello hello world").unwrap(), true);
    assert_eq!(re.is_match(b"hello world").unwrap(), false);
}

#[test]
fn byte_engine_matches_raw_bytes() {
    let re = compile_bytes(b"\\xff+", None).unwrap();
    assert!(re.is_match(&[0xff, 0xff, 0xff]));
    let upper = compile_bytes(b"[A-Z]+", None).unwrap();
    assert!(upper.is_match(b"HELLO"));
    assert!(!upper.is_match(b"hello"));
}

#[test]
fn case_insensitive_setting() {
    let mut opts = BytesRegexOpts::default();
    opts.case_insensitive = true;
    let re = compile_bytes(b"[A-Z]+", Some(opts)).unwrap();
    assert!(re.is_match(b"hello"));
    let mut fopts = RegexOpts::default();
    fopts.case_insensitive = true;
    let fre = compile(b"abc", Some(fopts)).unwrap();
    assert_eq!(fre.is_match(b"xABCx").unwrap(), true);
}

#[test]
fn escape_makes_literal_patterns() {
    assert_eq!(escape(b"1+1=2").unwrap(), b"1\\+1=2".to_vec());
    assert_eq!(escape(b"a.b\n(c)").unwrap(), b"a\\.b\\n\\(c\\)".to_vec());
    assert_eq!(escape("é$".as_bytes()).unwrap(), "é\\$".as_bytes().to_vec());
    let re = compile(&escape(b"1+1=2").unwrap(), None).unwrap();
    assert_eq!(re.is_match(b"so 1+1=2 here").unwrap(), true);
    assert_eq!(re.is_match(b"11=2").unwrap(), false);
}

#[test]
fn find_reports_one_based_positions() {
    let re = compile_bytes(b"o", None).unwrap();
    assert_eq!(re.find(b"foo boo", None), Some((2, 2, b"o".to_vec())));
    assert_eq!(re.find(b"foo boo", Some(4)), Some((6, 6, b"o".to_vec())));
    assert_eq!(re.find(b"foo boo", Some(-1)), Some((7, 7, b"o".to_vec())));
    assert_eq!(re.find(b"fff", None), None);
    let fre = compile(b"b+", None).unwrap();
    assert_eq!(fre.find(b"abbbc", None).unwrap(), Some((2, 4, b"bbb".to_vec())));
}

#[test]
fn walk_over_matches() {
    let re = compile_bytes(b"\\d+", None).unwrap();
    let hay = b"a1b22c333";
    let mut cur = MatchCursor::new();
    assert_eq!(re.find_next(&mut cur, hay), Some((2, 2, b"1".to_vec())));
    assert_eq!(re.find_next(&mut cur, hay), Some((4, 5, b"22".to_vec())));
    assert_eq!(re.find_next(&mut cur, hay), Some((7, 9, b"333".to_vec())));
    assert_eq!(re.find_next(&mut cur, hay), None);
}

#[test]
fn walk_over_empty_matches_ends() {
    let re = compile_bytes(b"", None).unwrap();
    let mut cur = MatchCursor::new();
    assert_eq!(re.find_next(&mut cur, b"ab"), Some((1, 0, Vec::new())));
    assert_eq!(re.find_next(&mut cur, b"ab"), Some((2, 1, Vec::new())));
    assert_eq!(re.find_next(&mut cur, b"ab"), Some((3, 2, Vec::new())));
    assert_eq!(re.find_next(&mut cur, b"ab"), None);
    assert_eq!(cur.offset, 3);
}

#[test]
fn walk_over_captures() {
    let re = compile(b"(\\w)=(\\d)", None).unwrap();
    let hay = b"a=1, b=2";
    let mut cur = re.captures_iter(hay).unwrap();
    let first = re.captures_next(&mut cur, hay).unwrap().unwrap();
    assert_eq!(first.get(1), Some(b"a".to_vec()));
    let second = re.captures_next(&mut cur, hay).unwrap().unwrap();
    assert_eq!(second.get(2), Some(b"2".to_vec()));
    assert_eq!(second.start(0), Some(6));
    assert_eq!(second.end_(0), Some(8));
    assert!(re.captures_next(&mut cur, hay).is_none());
}

#[test]
fn split_on_matches() {
    let re = compile_bytes(b",", None).unwrap();
    let all = re.split(b"a,b,,c", None);
    assert_eq!(all, vec![b"a".to_vec(), b"b".to_vec(), Vec::new(), b"c".to_vec()]);
    let two = re.split(b"a,b,,c", Some(2));
    assert_eq!(two, vec![b"a".to_vec(), b"b,,c".to_vec()]);
    let one = re.split(b"a,b", Some(1));
    assert_eq!(one, vec![b"a,b".to_vec()]);
    let fre = compile(b"\\s+", None).unwrap();
    assert_eq!(
        fre.split(b"x  y z", None).unwrap(),
        vec![b"x".to_vec(), b"y".to_vec(), b"z".to_vec()]
    );
    assert_eq!(split_limit(Some(-3)), 0);
    assert_eq!(split_limit(None), 0);
}

#[test]
fn replace_with_templates() {
    let re = compile_bytes(b"(\\w+)@(\\w+)", None).unwrap();
    let all = re.replace_template(b"x@y and a@b", b"$2@$1", replace_count(Some(10)));
    assert_eq!(all, b"y@x and b@a".to_vec());
    let one = re.replace_template(b"x@y and a@b", b"$2@$1", replace_count(None));
    assert_eq!(one, b"y@x and a@b".to_vec());
    let none = re.replace_template(b"x@y", b"$2", replace_count(Some(-1)));
    assert_eq!(none, b"x@y".to_vec());
    let fre = compile(b"(?<w>o+)", None).unwrap();
    assert_eq!(
        fre.replace_template(b"foo boo", b"[${w}]", usize::MAX).unwrap(),
        b"f[oo] b[oo]".to_vec()
    );
}

#[test]
fn replacement_driven_step_by_step() {
    let re = compile_bytes(b"\\d", None).unwrap();
    let hay = b"a1b2";
    let mut st = Replacement::new(usize::MAX);
    let mut seen = Vec::new();
    while let Some(caps) = re.replace_next(&mut st, hay) {
        seen.push(caps.get(0).unwrap());
        st.push(b"#");
    }
    assert_eq!(seen, vec![b"1".to_vec(), b"2".to_vec()]);
    assert_eq!(st.finish(hay), b"a#b#".to_vec());
}

#[test]
fn replacement_values() {
    let keep = replacement_from_value(ReplacementValue::Nil, "Regex:replace", b"m").unwrap();
    assert_eq!(keep, b"m".to_vec());
    let keep2 = replacement_from_value(ReplacementValue::Boolean(false), "Regex:replace", b"m");
    assert_eq!(keep2.unwrap(), b"m".to_vec());
    let num = replacement_from_value(ReplacementValue::Integer(-42), "Regex:replace", b"m");
    assert_eq!(num.unwrap(), b"-42".to_vec());
    match replacement_from_value(ReplacementValue::Boolean(true), "Regex:replace", b"m") {
        Err(LibError::BadArgument { position, expected, got, .. }) => {
            assert_eq!(position, 3);
            assert_eq!(expected, "string, number, false, or nil");
            assert_eq!(got, "boolean");
        },
        other => panic!("unexpected {:?}", other),
    }
}

#[test]
fn group_names_and_count() {
    let re = compile(b"(?<a>x)(y)", None).unwrap();
    assert_eq!(re.capture_names(), vec![Some(b"a".to_vec()), None]);
    assert_eq!(re.capture_count(), 2);
    let bre = compile_bytes(b"plain", None).unwrap();
    assert_eq!(bre.capture_names(), Vec::<Option<Vec<u8>>>::new());
    assert_eq!(bre.capture_count(), 0);
    assert_eq!(bre.pattern(), b"plain".to_vec());
}

#[test]
fn bad_patterns_are_bad_arguments() {
    match compile(b"(", None) {
        Err(LibError::BadArgument { position, function, expected, .. }) => {
            assert_eq!(position, 1);
            assert_eq!(function, "regex.compile");
            assert_eq!(expected, "a valid regex pattern");
        },
        _ => panic!("an unclosed group compiled"),
    }
    match compile_bytes(&[0x61, 0xff], None) {
        Err(LibError::BadArgument { position, function, expected, got }) => {
            assert_eq!(position, 1);
            assert_eq!(function, "regex.compile_bytes");
            assert_eq!(expected, "valid UTF-8 pattern");
            assert_eq!(got, "invalid UTF-8 at byte 2");
        },
        _ => panic!("a pattern that is not UTF-8 compiled"),
    }
}

#[test]
fn haystacks_must_be_utf8_for_the_fancy_engine() {
    let re = compile(b"a", None).unwrap();
    match re.find(&[0x61, 0x62, 0xc3], None) {
        Err(LibError::BadArgument { position, function, got, .. }) => {
            assert_eq!(position, 2);
            assert_eq!(function, "Regex:find");
            assert_eq!(got, "invalid UTF-8 at byte 3");
        },
        _ => panic!("a haystack that is not UTF-8 was searched"),
    }
    let bre = compile_bytes(b"a", None).unwrap();
    assert_eq!(bre.find(&[0x61, 0x62, 0xc3], None), Some((1, 1, b"a".to_vec())));
}

#[test]
fn escape_leaves_plain_text_with_newlines() {
    assert_eq!(escape(b"a\nb").unwrap(), b"a\nb".to_vec());
    assert_eq!(escape(b"tab\there").unwrap(), b"tab\there".to_vec());
}
