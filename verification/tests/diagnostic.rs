//! Tests of diagnostic pieces: spans, labels, context annotations, span
//! choice, warning order and stack tracebacks.
use shingetsu::diagnostic::{
    annotation_label, annotation_span, choose_error_span, context_annotations, find_token_end,
    format_frame, format_traceback, primary_span, secondary_annotations, warning_order,
    ErrorSubject, FrameInfo, Severity, SourceLoc, SpanChoice,
};

fn lua(loc: Option<&str>, name: &str, source: &str) -> FrameInfo {
    FrameInfo::Lua {
        location: loc.map(|s| s.to_string()),
        name: name.as_bytes().to_vec(),
        source: source.as_bytes().to_vec(),
    }
}

#[test]
fn token_ends_and_spans() {
    assert_eq!(find_token_end(b"foo.bar", 0), 3);
    assert_eq!(find_token_end(b"foo.bar", 3), 4);
    assert_eq!(find_token_end(b"foo", 5), 5);
    assert_eq!(annotation_span(b"local x = 1", 6, 0), (6, 7));
    assert_eq!(annotation_span(b"local x = 1", 6, 100), (6, 11));
}

#[test]
fn labels_take_the_first_line() {
    assert_eq!(annotation_label("plain"), "plain");
    assert_eq!(annotation_label("first\r\nsecond"), "first ...");
}

#[test]
fn primary_span_covers_at_most_three_lines() {
    let src = b"f({\n a,\n b,\n c,\n})";
    assert_eq!(primary_span(src, 0, src.len() as u32), (0, 11));
    assert_eq!(primary_span(src, 4, 5), (4, 9));
    assert_eq!(primary_span(b"abc def", 4, 0), (4, 7));
}

#[test]
fn context_annotations_skip_repeated_sites() {
    let src = b"local t = nil\nt = nil\nprint(t.x)";
    let anns = context_annotations(src, 20, Some((6, 1)), false, Some((14, 1)));
    assert_eq!(anns.len(), 2);
    assert_eq!((anns[0].start, anns[0].end, anns[0].label.as_str()), (6, 7, "defined here"));
    assert_eq!((anns[1].start, anns[1].end, anns[1].label.as_str()), (14, 15, "last assigned here"));
    let same = context_annotations(src, 6, Some((6, 1)), true, Some((6, 1)));
    assert!(same.is_empty());
    let selfdef = context_annotations(src, 20, Some((6, 1)), true, None);
    assert_eq!(selfdef[0].label, "self implicitly defined here by `:` function syntax");
}

#[test]
fn error_span_choice() {
    assert_eq!(choose_error_span(false, Some(1), 3, true, ErrorSubject::Key), SpanChoice::Instruction);
    assert_eq!(choose_error_span(true, Some(2), 3, false, ErrorSubject::Other), SpanChoice::Argument(1));
    assert_eq!(choose_error_span(true, Some(9), 3, false, ErrorSubject::Argument(3)), SpanChoice::Argument(2));
    assert_eq!(choose_error_span(true, None, 3, false, ErrorSubject::Argument(0)), SpanChoice::Instruction);
    assert_eq!(choose_error_span(true, None, 3, true, ErrorSubject::Key), SpanChoice::Key);
    assert_eq!(choose_error_span(true, None, 3, false, ErrorSubject::Key), SpanChoice::Instruction);
}

#[test]
fn warnings_order_by_severity() {
    let sev = [Severity::Warning, Severity::Allow, Severity::Error, Severity::Warning, Severity::Error];
    assert_eq!(warning_order(&sev), vec![2, 4, 0, 3, 1]);
    assert_eq!(warning_order(&[]), Vec::<usize>::new());
}

#[test]
fn secondary_annotations_in_the_same_source() {
    let loc = |name: &str, off: u32, len: u32, line: u32| SourceLoc {
        source_name: name.to_string(),
        byte_offset: off,
        byte_len: len,
        line,
    };
    let secs = vec![
        (loc("a.lua", 2, 3, 1), "here".to_string()),
        (loc("b.lua", 2, 3, 1), "elsewhere".to_string()),
        (loc("a.lua", 0, 0, 0), "nowhere".to_string()),
        (loc("a.lua", 0, 0, 1), "start".to_string()),
    ];
    let anns = secondary_annotations(b"abcdefgh", &"a.lua".to_string(), &secs);
    let got: Vec<(usize, usize, String)> = anns.into_iter().map(|a| (a.start, a.end, a.label)).collect();
    assert_eq!(got, vec![(2, 5, "here".to_string()), (0, 8, "start".to_string())]);
}

#[test]
fn frames_render_as_traceback_lines() {
    assert_eq!(format_frame(&lua(Some("main.lua:1"), "main.lua", "main.lua")), "main.lua:1: in main chunk");
    assert_eq!(format_frame(&lua(None, "", "main.lua")), "?: in main chunk");
    assert_eq!(format_frame(&lua(Some("m.lua:5"), "f", "m.lua")), "m.lua:5: in function f()");
    assert_eq!(format_frame(&FrameInfo::Native { name: b"error".to_vec() }), "[Native]: in function error");
}

#[test]
fn traceback_innermost_first() {
    assert_eq!(format_traceback(&[]), "");
    let stack = vec![
        lua(Some("main.lua:1"), "main.lua", "main.lua"),
        lua(Some("main.lua:5"), "f", "main.lua"),
        FrameInfo::Native { name: b"error".to_vec() },
    ];
    assert_eq!(
        format_traceback(&stack),
        "stack traceback:\n\t[Native]: in function error\n\tmain.lua:5: in function f()\n\tmain.lua:1: in main chunk"
    );
}

#[test]
fn traceback_collapses_repeated_frames() {
    let mut stack = vec![lua(Some("x.lua:1"), "x.lua", "x.lua")];
    for _ in 0..5 {
        stack.push(lua(Some("x.lua:2"), "rec", "x.lua"));
    }
    assert_eq!(
        format_traceback(&stack),
        "stack traceback:\n\tx.lua:2: in function rec()\n\t... (repeated 4 times)\n\tx.lua:1: in main chunk"
    );
}

#[test]
fn traceback_elides_the_middle_of_long_stacks() {
    let stack: Vec<FrameInfo> = (0..25).map(|i| lua(Some(&format!("y.lua:{i}")), "g", "y.lua")).collect();
    let out = format_traceback(&stack);
    let lines: Vec<&str> = out.lines().collect();
    assert_eq!(lines.len(), 22);
    assert_eq!(lines[1], "\ty.lua:24: in function g()");
    assert_eq!(lines[10], "\ty.lua:15: in function g()");
    assert_eq!(lines[11], "\t... (5 frames omitted)");
    assert_eq!(lines[12], "\ty.lua:9: in function g()");
    assert_eq!(lines[21], "\ty.lua:0: in function g()");
}
