//! Tests of the byte-level Lua pattern matcher.
use shingetsu::lua_pattern::{Capture, Match, Pattern};


fn find(pat: &str, hay: &[u8]) -> Option<Match> {
    Pattern::compile(pat.as_bytes())
        .expect("pattern compiles")
        .find(hay, 0)
        .expect("no runtime error")
}

fn cap_str<'a>(m: &Match, hay: &'a [u8], i: usize) -> &'a [u8] {
    match m.captures[i] {
        Capture::Span { start, end } => &hay[start..end],
        Capture::Position(_) => panic!("expected span capture"),
    }
}

fn annotated_captures<'a>(m: &Match, hay: &'a [u8]) -> Vec<(Capture, &'a str)> {
    m.captures
        .iter()
        .map(|c| match *c {
            Capture::Span { start, end } => {
                (*c, std::str::from_utf8(&hay[start..end]).expect("utf8"))
            }
            Capture::Position(_) => (*c, ""),
        })
        .collect()
}

/// The matched substring of `hay` for the first match of `pat`.
fn matched<'a>(pat: &str, hay: &'a [u8]) -> &'a [u8] {
    let m = find(pat, hay).expect("pattern should match");
    &hay[m.start..m.end]
}

#[test]
fn literal_match() {
    let m = find("hello", b"say hello world").unwrap();
    assert_eq!(m.start, 4);
    assert_eq!(m.end, 9);
}

#[test]
fn no_match() {
    assert_eq!(find("xyz", b"abc").is_none(), true);
}

#[test]
fn anchored_start() {
    assert_eq!(find("^hello", b"say hello").is_none(), true);
    let m = find("^hello", b"hello world").unwrap();
    assert_eq!(m.end, 5);
}

#[test]
fn anchored_end() {
    let m = find("world$", b"hello world").unwrap();
    assert_eq!(m.start, 6);
    assert_eq!(m.end, 11);
    assert_eq!(find("world$", b"hello world!").is_none(), true);
}

#[test]
fn dot_matches_any_byte() {
    // Key regression: `.` must match single bytes, including
    // non-ASCII bytes that would be part of a UTF-8 sequence.
    let utf8 = "é".as_bytes(); // 0xc3 0xa9
    let m = find(".", utf8).unwrap();
    assert_eq!(m.start, 0);
    assert_eq!(m.end, 1);
}

#[test]
fn digit_class() {
    let m = find("%d+", b"abc 12345 xyz").unwrap();
    assert_eq!(&b"abc 12345 xyz"[m.start..m.end], b"12345");
}

#[test]
fn alpha_class() {
    let m = find("%a+", b"123 hello 456").unwrap();
    assert_eq!(&b"123 hello 456"[m.start..m.end], b"hello");
}

#[test]
fn space_class() {
    let m = find("%s+", b"abc   def").unwrap();
    assert_eq!(m.end - m.start, 3);
}

#[test]
fn upper_class_complement() {
    let m = find("%A+", b"abc123def").unwrap();
    assert_eq!(&b"abc123def"[m.start..m.end], b"123");
}

#[test]
fn bracket_set() {
    let m = find("[aeiou]+", b"rhythm aeiou").unwrap();
    assert_eq!(&b"rhythm aeiou"[m.start..m.end], b"aeiou");
}

#[test]
fn bracket_set_complement() {
    let m = find("[^aeiou ]+", b" hello world").unwrap();
    assert_eq!(&b" hello world"[m.start..m.end], b"h");
}

#[test]
fn bracket_set_range() {
    let m = find("[a-z]+", b"ABCdef").unwrap();
    assert_eq!(&b"ABCdef"[m.start..m.end], b"def");
}

#[test]
fn bracket_set_with_class_inside() {
    let m = find("[%d%a]+", b"!!abc123!!").unwrap();
    assert_eq!(&b"!!abc123!!"[m.start..m.end], b"abc123");
}

#[test]
fn bracket_set_literal_close_at_start() {
    // `[]abc]` matches any of `]`, `a`, `b`, `c`.
    let m = find("[]abc]+", b"!!]abc!!").unwrap();
    assert_eq!(&b"!!]abc!!"[m.start..m.end], b"]abc");
}

#[test]
fn quantifier_star() {
    let m = find("a*", b"bbb").unwrap();
    assert_eq!(m.start, 0);
    assert_eq!(m.end, 0);
}

#[test]
fn quantifier_plus_requires_one() {
    assert_eq!(find("a+", b"bbb").is_none(), true);
}

#[test]
fn quantifier_optional() {
    let m = find("colou?r", b"color").unwrap();
    assert_eq!(m.end - m.start, 5);
    let m = find("colou?r", b"colour").unwrap();
    assert_eq!(m.end - m.start, 6);
}

#[test]
fn lazy_quantifier() {
    // Greedy would consume "abcXdefX"; lazy stops at first X.
    let m = find("a.-X", b"abcXdefX").unwrap();
    assert_eq!(&b"abcXdefX"[m.start..m.end], b"abcX");
}

#[test]
fn simple_capture() {
    let hay = b"abc 12345 xyz";
    let m = find("(%d+)", hay).unwrap();
    assert_eq!(
        annotated_captures(&m, hay),
        vec![(Capture::Span { start: 4, end: 9 }, "12345")]
    );
}

#[test]
fn multi_capture() {
    let hay = b"key=value";
    let m = find("(%a+)=(%a+)", hay).unwrap();
    assert_eq!(cap_str(&m, hay, 0), b"key");
    assert_eq!(cap_str(&m, hay, 1), b"value");
}

#[test]
fn position_capture() {
    let hay = b"hello world";
    let m = find("hello ()world", hay).unwrap();
    assert_eq!(
        annotated_captures(&m, hay),
        vec![(Capture::Position(6), "")]
    );
}

#[test]
fn backref_in_pattern() {
    // Match pairs of identical letters: `(%a)%1` should match "bb".
    let hay = b"foobar bb zap";
    let m = find("(%a)%1", hay).unwrap();
    assert_eq!(m.start, 1); // "foobar": matches "oo"
    assert_eq!(cap_str(&m, hay, 0), b"o");
}

#[test]
fn balanced_match() {
    let hay = b"foo(bar(baz)qux)end";
    let m = find("%b()", hay).unwrap();
    assert_eq!(&hay[m.start..m.end], b"(bar(baz)qux)");
}

#[test]
fn frontier_pattern() {
    // Find transitions from non-letter to letter: frontier after
    // the space before "THE".
    let hay = b"hello THE end";
    let m = find("%f[%u]", hay).unwrap();
    assert_eq!(m.start, 6);
    assert_eq!(m.end, 6);
}

#[test]
fn frontier_at_start_of_string() {
    // Previous byte is the sentinel \0 (not in set), so a frontier
    // at position 0 should match if the first char is in the set.
    let m = find("%f[%a]", b"abc def").unwrap();
    assert_eq!(m.start, 0);
}

#[test]
fn pattern_with_escaped_special() {
    let m = find("%.", b"a.b").unwrap();
    assert_eq!(m.start, 1);
    assert_eq!(m.end, 2);
}

#[test]
fn pattern_with_escaped_percent() {
    let m = find("%%", b"50%").unwrap();
    assert_eq!(m.start, 2);
    assert_eq!(m.end, 3);
}

#[test]
fn malformed_trailing_percent() {
    let err = Pattern::compile(b"abc%").unwrap_err();
    assert_eq!(err.message, "malformed pattern (ends with '%')".to_owned());
}

#[test]
fn malformed_missing_bracket() {
    let err = Pattern::compile(b"[abc").unwrap_err();
    assert_eq!(err.message, "malformed pattern (missing ']')".to_owned());
}

#[test]
fn malformed_balanced_missing_args() {
    let err = Pattern::compile(b"%b").unwrap_err();
    assert_eq!(
        err.message,
        "malformed pattern (missing arguments to '%b')".to_owned()
    );
}

#[test]
fn malformed_frontier_missing_bracket() {
    let err = Pattern::compile(b"%f%a").unwrap_err();
    assert_eq!(err.message, "missing '[' after '%f' in pattern".to_owned());
}

#[test]
fn malformed_unfinished_capture() {
    let err = Pattern::compile(b"(abc").unwrap_err();
    assert_eq!(err.message, "unfinished capture".to_owned());
}

#[test]
fn malformed_unbalanced_paren() {
    let err = Pattern::compile(b"abc)").unwrap_err();
    assert_eq!(err.message, "invalid pattern capture".to_owned());
}

#[test]
fn too_many_captures_at_compile() {
    let mut pat = String::new();
    for _ in 0..33 {
        pat.push_str("(a)");
    }
    let err = Pattern::compile(pat.as_bytes()).unwrap_err();
    assert_eq!(err.message, "too many captures".to_owned());
}

#[test]
fn recursion_limit() {
    // Each `a?` pushes a new `do_match` frame when the optional
    // byte actually matches, so `N` of them in a row produces `N`
    // deep recursion before any tail call.  MAX_CALLS = 200 so
    // 201 copies must trip the guard.
    let pat: String = "a?".repeat(201);
    let hay = vec![b'a'; 210];
    let p = Pattern::compile(pat.as_bytes()).expect("compile ok");
    let err = p.find(&hay, 0).unwrap_err();
    assert_eq!(err.message, "pattern too complex".to_owned());
}

#[test]
fn n_captures_counted() {
    let p = Pattern::compile(b"(%a+)=(%d+)").unwrap();
    assert_eq!(p.n_captures(), 2);
    let p = Pattern::compile(b"no captures here").unwrap();
    assert_eq!(p.n_captures(), 0);
}

#[test]
fn find_with_init_offset() {
    let hay = b"abc abc abc";
    let p = Pattern::compile(b"abc").unwrap();
    let m = p.find(hay, 4).unwrap().unwrap();
    assert_eq!(m.start, 4);
}

#[test]
fn date_pattern_captures() {
    let hay = b"2025-04-13";
    let m = find("(%d+)-(%d+)-(%d+)", hay).unwrap();
    assert_eq!(
        annotated_captures(&m, hay),
        vec![
            (Capture::Span { start: 0, end: 4 }, "2025"),
            (Capture::Span { start: 5, end: 7 }, "04"),
            (Capture::Span { start: 8, end: 10 }, "13"),
        ]
    );
}

#[test]
fn non_ascii_byte_literal_in_pattern() {
    // Pattern byte 0xc3 matches the byte 0xc3 in the haystack, as a
    // byte, not as the UTF-8 encoding of a character.
    let pat = [0xc3u8];
    let hay = [b'a', 0xc3, b'b'];
    let p = Pattern::compile(&pat).unwrap();
    let m = p.find(&hay, 0).unwrap().unwrap();
    assert_eq!(m.start, 1);
    assert_eq!(m.end, 2);
}

#[test]
fn xdigit_class() {
    let m = find("%x+", b"gg FACE42 zz").unwrap();
    assert_eq!(&b"gg FACE42 zz"[m.start..m.end], b"FACE42");
}

#[test]
fn graph_class() {
    // `%g` is printable non-space.
    let m = find("%g+", b"   hello   ").unwrap();
    assert_eq!(&b"   hello   "[m.start..m.end], b"hello");
}

// ---------------------------------------------------------------
// Class complements and less-common classes.
// ---------------------------------------------------------------

#[test]
fn digit_complement() {
    assert_eq!(matched("%D+", b"abc 1 def"), b"abc ");
}

#[test]
fn punct_class_and_complement() {
    assert_eq!(matched("%p+", b"abc!!!def"), b"!!!");
    assert_eq!(matched("%P+", b"!abc!"), b"abc");
}

#[test]
fn alnum_complement() {
    assert_eq!(matched("%W+", b"abc!!!def"), b"!!!");
}

#[test]
fn lower_class_and_complement() {
    assert_eq!(matched("%l+", b"ABCdef"), b"def");
    assert_eq!(matched("%L+", b"abCDef"), b"CD");
}

#[test]
fn upper_class_and_positive() {
    assert_eq!(matched("%u+", b"abcDEFghi"), b"DEF");
    assert_eq!(matched("%U+", b"abcDef"), b"abc");
}

#[test]
fn graph_complement() {
    // `%G` = not (printable non-space) = control chars and space.
    assert_eq!(matched("%G+", b"abc   def"), b"   ");
}

#[test]
fn control_class_and_complement() {
    let hay = b"ab\x01\x02cd";
    assert_eq!(matched("%c+", hay), b"\x01\x02");
    assert_eq!(matched("%C+", hay), b"ab");
}

#[test]
fn space_complement() {
    assert_eq!(matched("%S+", b"  hello  world"), b"hello");
}

#[test]
fn z_class_matches_only_nul() {
    // `%z` is undocumented in Lua 5.4 but the reference
    // implementation keeps it as "matches NUL".
    assert_eq!(find("%z", b"z").is_none(), true);
    let hay = b"a\0b";
    let m = find("%z", hay).unwrap();
    assert_eq!(m.start, 1);
    assert_eq!(m.end, 2);
}

#[test]
fn capital_z_class_is_non_nul() {
    let hay = b"\0\0abc\0";
    let m = find("%Z+", hay).unwrap();
    assert_eq!(&hay[m.start..m.end], b"abc");
}

#[test]
fn unknown_percent_letter_is_literal() {
    // `%q` is not a recognized class, so it matches literal `q`.
    let m = find("%q", b"aqb").unwrap();
    assert_eq!(m.start, 1);
    assert_eq!(m.end, 2);
}

// ---------------------------------------------------------------
// Bracket set edge cases.
// ---------------------------------------------------------------

#[test]
fn bracket_set_leading_dash_is_literal() {
    // `[-ab]` matches any of `-`, `a`, `b`.
    assert_eq!(matched("[-ab]+", b"xxa-bxx"), b"a-b");
}

#[test]
fn bracket_set_trailing_dash_is_literal() {
    assert_eq!(matched("[ab-]+", b"xxa-bxx"), b"a-b");
}

#[test]
fn bracket_set_escaped_close_bracket() {
    // `[%]]` is a set containing the escaped `]`.
    let m = find("[%]]", b"x]y").unwrap();
    assert_eq!(m.start, 1);
    assert_eq!(m.end, 2);
}

#[test]
fn bracket_set_complement_range() {
    assert_eq!(matched("[^a-z]+", b"abc123def"), b"123");
}

#[test]
fn bracket_set_complement_class() {
    // `[%A]+` matches runs of non-alpha characters.
    assert_eq!(matched("[%A]+", b"abc123!!!def"), b"123!!!");
}

#[test]
fn bracket_set_high_byte_range() {
    // Byte ranges spanning the high-bit region must compare raw
    // byte values, not interpret them as UTF-8 code units.
    let hay = [0x40u8, 0x80, 0x90, 0xFF, 0x30];
    let pat: &[u8] = &[b'[', 0x80, b'-', 0xFF, b']', b'+'];
    let p = Pattern::compile(pat).unwrap();
    let m = p.find(&hay, 0).unwrap().unwrap();
    assert_eq!(m.start, 1);
    assert_eq!(m.end, 4);
}

// ---------------------------------------------------------------
// Capture edge cases.
// ---------------------------------------------------------------

#[test]
fn nested_captures() {
    let hay = b"ab";
    let m = find("((a)(b))", hay).unwrap();
    assert_eq!(
        annotated_captures(&m, hay),
        vec![
            (Capture::Span { start: 0, end: 2 }, "ab"),
            (Capture::Span { start: 0, end: 1 }, "a"),
            (Capture::Span { start: 1, end: 2 }, "b"),
        ]
    );
}

#[test]
fn position_and_span_captures_mixed() {
    let hay = b"abc XYZ def";
    let m = find("()(%u+)", hay).unwrap();
    assert_eq!(
        annotated_captures(&m, hay),
        vec![
            (Capture::Position(4), ""),
            (Capture::Span { start: 4, end: 7 }, "XYZ"),
        ]
    );
}

#[test]
fn backref_out_of_range_errors() {
    // Pattern references `%3` but only two captures exist.
    let p = Pattern::compile(b"(a)(b)%3").unwrap();
    let err = p.find(b"abc", 0).unwrap_err();
    assert_eq!(err.message, "invalid capture index %3".to_owned());
}

#[test]
fn backref_to_unfinished_capture_errors() {
    // `%1` inside its own capture references an unfinished slot.
    let p = Pattern::compile(b"(%1)").unwrap();
    let err = p.find(b"ab", 0).unwrap_err();
    assert_eq!(err.message, "invalid capture index %1".to_owned());
}

// ---------------------------------------------------------------
// Balanced and frontier edge cases.
// ---------------------------------------------------------------

#[test]
fn balanced_brackets() {
    let hay = b"[[a]b]c";
    let m = find("%b[]", hay).unwrap();
    assert_eq!(&hay[m.start..m.end], b"[[a]b]");
}

#[test]
fn balanced_match_unbalanced_input_returns_none() {
    assert_eq!(find("%b()", b"(foo").is_none(), true);
}

#[test]
fn balanced_arg_too_short_errors_at_compile() {
    let err = Pattern::compile(b"%bx").unwrap_err();
    assert_eq!(
        err.message,
        "malformed pattern (missing arguments to '%b')".to_owned()
    );
}

// ---------------------------------------------------------------
// Quantifier backtracking.
// ---------------------------------------------------------------

#[test]
fn greedy_star_backtracks_to_find_next() {
    // `.*X` must consume as much as possible then back off until
    // the remaining `X` finds its match.  On `aXbXc` the answer
    // is `aXbX` (greedy stops at the last X).
    assert_eq!(matched(".*X", b"aXbXc"), b"aXbX");
}

#[test]
fn greedy_plus_backtracks_with_optional() {
    // `a+b?a` on `aa`: `a+` first eats both, `b?` matches empty,
    // `a` needs a char but we're at end.  Back off `a+` to one
    // `a`, `b?` empty, final `a` matches.  Result: `aa`.
    assert_eq!(matched("a+b?a", b"aa"), b"aa");
}

#[test]
fn lazy_zero_length_match() {
    // `a.-b` on `ab` must take the zero-length lazy match.
    assert_eq!(matched("a.-b", b"ab"), b"ab");
}

// ---------------------------------------------------------------
// Edge cases and init offset handling.
// ---------------------------------------------------------------

#[test]
fn empty_pattern_on_nonempty_string() {
    let m = find("", b"abc").unwrap();
    assert_eq!(m.start, 0);
    assert_eq!(m.end, 0);
}

#[test]
fn empty_pattern_on_empty_string() {
    let m = find("", b"").unwrap();
    assert_eq!(m.start, 0);
    assert_eq!(m.end, 0);
}

#[test]
fn find_with_init_at_end() {
    // Empty pattern should match at the one-past-end position.
    let p = Pattern::compile(b"").unwrap();
    let m = p.find(b"abc", 3).unwrap().unwrap();
    assert_eq!(m.start, 3);
    assert_eq!(m.end, 3);
}

#[test]
fn find_with_init_past_end_clamps() {
    let p = Pattern::compile(b"").unwrap();
    let m = p.find(b"abc", 1000).unwrap().unwrap();
    assert_eq!(m.start, 3);
    assert_eq!(m.end, 3);
}

#[test]
fn caret_not_at_start_is_literal() {
    // `^` only acts as an anchor at position 0 of the pattern.
    let m = find("a^b", b"xa^bx").unwrap();
    assert_eq!(&b"xa^bx"[m.start..m.end], b"a^b");
}

#[test]
fn dollar_not_at_end_is_literal() {
    let m = find("a$b", b"xa$bx").unwrap();
    assert_eq!(&b"xa$bx"[m.start..m.end], b"a$b");
    // And `a$b` on input without literal `$` should not match.
    assert_eq!(find("a$b", b"ab").is_none(), true);
}

// ---------------------------------------------------------------
// Non-ASCII handling at the byte level.
// ---------------------------------------------------------------

#[test]
fn high_bit_byte_is_not_alpha() {
    let hay = [0xFFu8];
    let p = Pattern::compile(b"%a").unwrap();
    assert_eq!(p.find(&hay, 0).unwrap().is_none(), true);
}

#[test]
fn high_bit_byte_is_not_space() {
    let hay = [0xA0u8]; // Latin-1 NBSP
    let p = Pattern::compile(b"%s").unwrap();
    assert_eq!(p.find(&hay, 0).unwrap().is_none(), true);
}

// ---------------------------------------------------------------
// Position-capture backrefs and the `is_anchored` helper.
// ---------------------------------------------------------------

#[test]
fn position_capture_backref_fails_silently() {
    // In reference Lua, `()%1` treats the position capture's
    // length as a huge unsigned value so the compare fails and
    // the overall match returns no result (rather than raising
    // "invalid capture index").
    let p = Pattern::compile(b"()%1").unwrap();
    assert_eq!(p.find(b"abc", 0).unwrap().is_none(), true);
}

#[test]
fn is_anchored_detects_caret() {
    assert_eq!(Pattern::compile(b"^abc").unwrap().is_anchored(), true);
    assert_eq!(Pattern::compile(b"abc").unwrap().is_anchored(), false);
    // A `^` that's not at position 0 is a literal, not an anchor.
    assert_eq!(Pattern::compile(b"a^b").unwrap().is_anchored(), false);
}

#[test]
fn match_has_one_capture_per_group_inside_the_match() {
    let p = Pattern::compile(b"(%a+)=()(%d+)").unwrap();
    let m = p.find(b"xx key=42 yy", 0).unwrap().unwrap();
    assert_eq!(m.captures.len(), p.n_captures());
    assert_eq!(m.captures.len(), 3);
    for c in &m.captures {
        match *c {
            Capture::Span { start, end } => assert!(m.start <= start && start <= end && end <= m.end),
            Capture::Position(at) => assert!(m.start <= at && at <= m.end),
        }
    }
}

#[test]
fn compiled_pattern_fails_only_on_backreference_or_depth() {
    let p = Pattern::compile(b"(a)%2").unwrap();
    let e = p.find(b"aa", 0).unwrap_err();
    assert_eq!(e.message, "invalid capture index %2");
}
