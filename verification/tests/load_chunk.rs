//! Tests of the rules around loading chunks, `error` and
//! `collectgarbage`.
use shingetsu::load_chunk::{
    error_level, file_chunk_name, frame_for_level, gc_request, load_mode_error,
    format_compile_error, located_message, open_failure, string_chunk, ChunkReader, GcRequest,
};
use shingetsu::report::CompileErrorKind;

#[test]
fn error_levels_and_positions() {
    assert_eq!(error_level(None), 1);
    assert_eq!(error_level(Some(2)), 2);
    assert_eq!(error_level(Some(0)), 0);
    assert_eq!(frame_for_level(3, 1), Some(2));
    assert_eq!(frame_for_level(3, 3), Some(0));
    assert_eq!(frame_for_level(3, 4), None);
    assert_eq!(frame_for_level(3, 0), None);
    assert_eq!(located_message("t.lua", 4, b"boom"), "t.lua:4: boom");
    assert_eq!(located_message("t.lua", 10, &[0x62, 0xff]), "t.lua:10: b\u{FFFD}");
}

#[test]
fn collector_requests() {
    assert_eq!(gc_request(None), GcRequest::Collect);
    assert_eq!(gc_request(Some(b"collect")), GcRequest::Collect);
    assert_eq!(gc_request(Some(b"count")), GcRequest::Count);
    assert_eq!(gc_request(Some(b"isrunning")), GcRequest::IsRunning);
    assert_eq!(gc_request(Some(b"step")), GcRequest::Other);
}

#[test]
fn string_chunks() {
    let (text, name) = string_chunk(b"return 1").unwrap();
    assert_eq!(text, "return 1");
    assert_eq!(name, "return 1");
    assert_eq!(string_chunk(&[0xff]).unwrap_err(), "load: chunk is not valid UTF-8");
}

#[test]
fn reader_chunks() {
    let mut r = ChunkReader::new();
    r.take(Some(b"return "));
    assert!(!r.done);
    r.take(Some(b"1"));
    r.take(Some(b""));
    assert!(r.done);
    let (text, name) = r.finish().unwrap();
    assert_eq!(text, "return 1");
    assert_eq!(name, "=(load)");
    let mut bad = ChunkReader::new();
    bad.take(Some(&[0xc3]));
    bad.take(None);
    assert_eq!(bad.finish().unwrap_err(), "load: chunk is not valid UTF-8");
}

#[test]
fn load_modes() {
    assert_eq!(load_mode_error(None), None);
    assert_eq!(load_mode_error(Some(b"t")), None);
    assert_eq!(load_mode_error(Some(b"bt")), None);
    assert_eq!(
        load_mode_error(Some(b"b")),
        Some("attempt to load a text chunk (mode is 'b')".to_string())
    );
}

#[test]
fn file_chunks() {
    assert_eq!(file_chunk_name("lib/x.lua"), "@lib/x.lua");
    assert_eq!(
        open_failure("x.lua", "No such file or directory"),
        "cannot open x.lua: No such file or directory"
    );
}

#[test]
fn format_compile_error_appends_help() {
    assert_eq!(
        format_compile_error(
            "[string \"chunk.lua\"]:65537:3: too many constants in chunk (limit: 65535)",
            CompileErrorKind::Semantic,
            Some("split large literal table constructors"),
        ),
        "[string \"chunk.lua\"]:65537:3: too many constants in chunk (limit: 65535)\n\
         help: split large literal table constructors"
    );
}

#[test]
fn format_compile_error_no_help_unchanged() {
    assert_eq!(
        format_compile_error("[string \"chunk.lua\"]:1:1: unexpected token", CompileErrorKind::Parse, None),
        "[string \"chunk.lua\"]:1:1: unexpected token"
    );
    assert_eq!(
        format_compile_error("x: unsupported feature: goto", CompileErrorKind::UnsupportedFeature, Some("ignored")),
        "x: unsupported feature: goto"
    );
}
