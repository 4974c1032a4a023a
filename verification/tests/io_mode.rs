//! Tests of file mode parsing.
use shingetsu::io_lib::{parse_mode, FileMode};

#[test]
fn parse_mode_r() {
    let m = parse_mode(b"r").expect("valid");
    assert_eq!(m.read, true);
    assert_eq!(m.write, false);
    assert_eq!(m.append, false);
    assert_eq!(m.truncate, false);
}

#[test]
fn parse_mode_w() {
    let m = parse_mode(b"w").expect("valid");
    assert_eq!(m.read, false);
    assert_eq!(m.write, true);
    assert_eq!(m.append, false);
    assert_eq!(m.truncate, true);
}

#[test]
fn parse_mode_a() {
    let m = parse_mode(b"a").expect("valid");
    assert_eq!(m.read, false);
    assert_eq!(m.write, true);
    assert_eq!(m.append, true);
    assert_eq!(m.truncate, false);
}

#[test]
fn parse_mode_r_plus() {
    let m = parse_mode(b"r+").expect("valid");
    assert_eq!(m.read, true);
    assert_eq!(m.write, true);
    assert_eq!(m.append, false);
    assert_eq!(m.truncate, false);
}

#[test]
fn parse_mode_w_plus() {
    let m = parse_mode(b"w+").expect("valid");
    assert_eq!(m.read, true);
    assert_eq!(m.write, true);
    assert_eq!(m.append, false);
    assert_eq!(m.truncate, true);
}

#[test]
fn parse_mode_a_plus() {
    let m = parse_mode(b"a+").expect("valid");
    assert_eq!(m.read, true);
    assert_eq!(m.write, true);
    assert_eq!(m.append, true);
    assert_eq!(m.truncate, false);
}

#[test]
fn parse_mode_binary_suffix() {
    let m = parse_mode(b"rb").expect("valid");
    assert_eq!(m.read, true);
    assert_eq!(m.write, false);

    let m = parse_mode(b"w+b").expect("valid");
    assert_eq!(m.read, true);
    assert_eq!(m.write, true);
    assert_eq!(m.truncate, true);
}

#[test]
fn parse_mode_invalid() {
    let err = parse_mode(b"x").unwrap_err();
    assert_eq!(err, "invalid mode 'x'");
}

#[test]
fn parse_mode_empty() {
    let err = parse_mode(b"").unwrap_err();
    assert_eq!(err, "invalid mode ''");
}

#[test]
fn parse_mode_just_binary() {
    // "b" alone is not a valid mode — there's no base mode.
    let err = parse_mode(b"b").unwrap_err();
    assert_eq!(err, "invalid mode ''");
}

#[test]
fn parse_mode_plus_only() {
    let err = parse_mode(b"+").unwrap_err();
    assert_eq!(err, "invalid mode '+'");
}

#[test]
fn parse_mode_doubled() {
    let err = parse_mode(b"rr").unwrap_err();
    assert_eq!(err, "invalid mode 'rr'");
}

#[test]
fn parse_mode_ab() {
    let m = parse_mode(b"ab").expect("valid");
    assert_eq!(m.append, true);
    assert_eq!(m.write, true);
    assert_eq!(m.read, false);
}

#[test]
fn parse_mode_a_plus_b() {
    let m = parse_mode(b"a+b").expect("valid");
    assert_eq!(m.read, true);
    assert_eq!(m.write, true);
    assert_eq!(m.append, true);
}

#[test]
fn file_mode_read_const() {
    let parsed = parse_mode(b"r").expect("valid");
    assert_eq!(FileMode::READ(), parsed);
}

#[test]
fn file_mode_write_const() {
    let parsed = parse_mode(b"w").expect("valid");
    assert_eq!(FileMode::WRITE(), parsed);
}

