use shingetsu::diagnostic::{FrameInfo, RenderStyle, Severity, SourceLoc};
use shingetsu::report::{
    compile_error_renders, multi_source_renders, render_compile_error, render_diagnostic_multi_source,
    render_runtime_error, render_warning, render_warnings, runtime_error_renders, warnings_render,
    CompileErrorKind, CompileFailure, Hint, SourceText, VarContext, WarningDiag,
};

fn loc(name: &str, offset: u32, len: u32, line: u32) -> SourceLoc {
    SourceLoc { source_name: name.to_string(), byte_offset: offset, byte_len: len, line }
}

fn diag(severity: Severity, message: &str, id: &str, location: SourceLoc) -> WarningDiag {
    WarningDiag {
        severity,
        message: message.to_string(),
        id: id.to_string(),
        display_name: location.source_name.clone(),
        location,
        primary_label: None,
        secondary_spans: vec![],
        help: None,
    }
}

#[test]
fn runtime_error_without_location_is_title_and_traceback() {
    let frames = vec![FrameInfo::Native { name: b"error".to_vec() }];
    let out = render_runtime_error("boom", b"", &None, None, &[], &frames, RenderStyle::Plain);
    assert!(out.starts_with("error: boom"));
    assert!(out.contains("stack traceback:"));
    assert!(out.contains("[Native]: in function error"));
}

#[test]
fn runtime_error_underlines_its_span_and_context() {
    let src = b"local x = nil\nprint(x.y)\n";
    let ctx = VarContext { definition: Some((6, 1)), is_implicit_self: false, last_assignment: None };
    let l = Some(loc("main.lua", 20, 3, 2));
    assert!(runtime_error_renders("attempt to index a nil value", src, &l, Some(ctx), &[]));
    let out = render_runtime_error("attempt to index a nil value", src, &l, Some(ctx), &[], &[], RenderStyle::Plain);
    assert!(out.starts_with("error: attempt to index a nil value"));
    assert!(out.contains("main.lua:2"));
    assert!(out.contains("defined here"));
    assert!(!out.contains("stack traceback"));
}

#[test]
fn runtime_error_hints_follow_as_help() {
    let src = b"foo()\n";
    let hints = vec![
        Hint { message: "did you mean `for`?".to_string(), location: None },
        Hint { message: "declared here".to_string(), location: Some(loc("m.lua", 1, 2, 1)) },
    ];
    let out = render_runtime_error("call failed", src, &None, None, &hints, &[], RenderStyle::Plain);
    let first = out.find("help: did you mean `for`?").unwrap();
    let second = out.find("help: declared here").unwrap();
    assert!(out.starts_with("error: call failed"));
    assert!(first < second);
}

#[test]
fn runtime_error_source_not_utf8_is_not_shown() {
    let l = Some(loc("main.lua", 1, 1, 1));
    let out = render_runtime_error("bad", &[0xff, 0x41, 0x42], &l, None, &[], &[], RenderStyle::Plain);
    assert!(!out.contains("main.lua"));
}

#[test]
fn runtime_error_span_past_the_source_does_not_render() {
    let l = Some(loc("main.lua", 40, 2, 1));
    assert!(!runtime_error_renders("bad", b"abc", &l, None, &[]));
    let l = Some(loc("main.lua", 1, 1, 1));
    assert!(!runtime_error_renders("bad", "aé".as_bytes(), &l, None, &[]));
    assert!(runtime_error_renders("bad", "aé".as_bytes(), &Some(loc("main.lua", 1, 2, 1)), None, &[]));
}

#[test]
fn warnings_render_errors_first() {
    let src = "local a = 1\nlocal b = 2\n";
    let ds = vec![
        diag(Severity::Warning, "unused variable", "unused", loc("m.lua", 6, 1, 1)),
        diag(Severity::Error, "bad thing", "bad", loc("m.lua", 18, 1, 2)),
        diag(Severity::Allow, "just so", "note-lint", loc("m.lua", 0, 0, 0)),
    ];
    assert!(warnings_render(&ds, src));
    let out = render_warnings(&ds, src, RenderStyle::Plain);
    let e = out.find("error[bad]: bad thing").unwrap();
    let w = out.find("warning[unused]: unused variable").unwrap();
    let n = out.find("note[note-lint]: just so").unwrap();
    assert!(e < w && w < n);
    assert_eq!(render_warnings(&[], src, RenderStyle::Plain), "");
}

#[test]
fn single_warning_is_the_list_of_one() {
    let src = "x = 1\n";
    let mut d = diag(Severity::Warning, "global write", "global", loc("m.lua", 0, 1, 1));
    d.help = Some("declare it local".to_string());
    let one = render_warning(&d, src, RenderStyle::Plain);
    assert_eq!(one, render_warnings(std::slice::from_ref(&d), src, RenderStyle::Plain));
    assert!(one.contains("help: declare it local"));
}

#[test]
fn warning_secondary_spans_in_another_source_are_left_out() {
    let src = "local a = 1\nlocal a = 2\n";
    let mut d = diag(Severity::Warning, "shadowed", "shadow", loc("m.lua", 18, 1, 2));
    d.secondary_spans = vec![
        (loc("m.lua", 6, 1, 1), "first here".to_string()),
        (loc("other.lua", 6, 1, 1), "elsewhere".to_string()),
    ];
    let out = render_warnings(&[d], src, RenderStyle::Plain);
    assert!(out.contains("first here"));
    assert!(!out.contains("elsewhere"));
}

#[test]
fn multi_source_shows_each_source_primary_first() {
    let mut d = diag(Severity::Error, "duplicate lint name", "dup", loc("b.lua", 6, 3, 1));
    d.primary_label = Some("this declaration conflicts".to_string());
    d.secondary_spans = vec![(loc("a.lua", 6, 3, 1), "first declared here".to_string())];
    let sources = vec![
        SourceText { name: "a.lua".to_string(), display: "a.lua".to_string(), text: "local foo = 1\n".to_string() },
        SourceText { name: "b.lua".to_string(), display: "b.lua".to_string(), text: "local foo = 2\n".to_string() },
    ];
    assert!(multi_source_renders(&d, &sources));
    let out = render_diagnostic_multi_source(&d, &sources, RenderStyle::Plain);
    let b = out.find("b.lua").unwrap();
    let a = out.find("a.lua").unwrap();
    assert!(b < a);
    assert!(out.contains("this declaration conflicts"));
    assert!(out.contains("first declared here"));
}

#[test]
fn multi_source_skips_unknown_sources() {
    let mut d = diag(Severity::Warning, "odd", "odd", loc("gone.lua", 1, 1, 1));
    d.secondary_spans = vec![(loc("a.lua", 0, 1, 1), "here".to_string())];
    let sources = vec![SourceText { name: "a.lua".to_string(), display: "shown-a".to_string(), text: "xyz\n".to_string() }];
    let out = render_diagnostic_multi_source(&d, &sources, RenderStyle::Plain);
    assert!(out.contains("shown-a"));
    assert!(!out.contains("gone.lua"));
}

#[test]
fn compile_error_titles_and_help() {
    let e = CompileFailure {
        kind: CompileErrorKind::UnsupportedFeature,
        text: "goto".to_string(),
        location: loc("m.lua", 0, 0, 0),
        display_name: "m.lua".to_string(),
        help: Some("use a loop".to_string()),
    };
    assert!(compile_error_renders(&e, "goto x\n"));
    let out = render_compile_error(&e, "goto x\n", RenderStyle::Plain);
    assert!(out.starts_with("error: unsupported feature: goto"));
    assert!(out.contains("help: use a loop"));
    let p = CompileFailure { kind: CompileErrorKind::Parse, text: "unexpected symbol".to_string(), location: loc("m.lua", 5, 1, 1), display_name: "m.lua".to_string(), help: Some("ignored".to_string()) };
    let out = render_compile_error(&p, "goto x\n", RenderStyle::Plain);
    assert!(out.starts_with("error: unexpected symbol"));
    assert!(out.contains("m.lua:1"));
    assert!(!out.contains("ignored"));
}

#[test]
fn colored_reports_differ_from_plain() {
    let plain = render_runtime_error("boom", b"", &None, None, &[], &[], RenderStyle::Plain);
    let colored = render_runtime_error("boom", b"", &None, None, &[], &[], RenderStyle::Colored);
    assert!(colored.contains('\u{1b}'));
    assert!(!plain.contains('\u{1b}'));
}
