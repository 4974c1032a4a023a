//! Tests of the rules around the `os` and `io` system calls:
//! environment names, rename failures, temporary names, pipe modes.
use shingetsu::error::LibError;
use shingetsu::io_lib::{popen_display, popen_mode, PopenMode};
use shingetsu::math_lib::random_range;
use shingetsu::os_lib::{env_name_usable, rename_failure, tmp_file_name};

#[test]
fn environment_names() {
    assert!(env_name_usable(b"PATH"));
    assert!(!env_name_usable(b""));
    assert!(!env_name_usable(b"A=B"));
    assert!(!env_name_usable(b"A\0B"));
}

#[test]
fn rename_failures_name_both_paths() {
    assert_eq!(
        rename_failure(b"a.txt", b"dir/b.txt", "No such file or directory"),
        "a.txt -> dir/b.txt: No such file or directory"
    );
    assert_eq!(rename_failure(&[0xff], b"b", "x"), "\u{FFFD} -> b: x");
}

#[test]
fn temporary_names() {
    assert_eq!(tmp_file_name(255), b"lua_00000000000000ff".to_vec());
    assert_eq!(tmp_file_name(0), b"lua_0000000000000000".to_vec());
    assert_eq!(tmp_file_name(u64::MAX), b"lua_ffffffffffffffff".to_vec());
}

#[test]
fn pipe_modes() {
    assert_eq!(popen_mode(None).unwrap(), PopenMode::Read);
    assert_eq!(popen_mode(Some(b"r")).unwrap(), PopenMode::Read);
    assert_eq!(popen_mode(Some(b"w")).unwrap(), PopenMode::Write);
    match popen_mode(Some(b"rw")) {
        Err(LibError::BadArgument { position, function, expected, got }) => {
            assert_eq!(position, 2);
            assert_eq!(function, "popen");
            assert_eq!(expected, "'r' or 'w'");
            assert_eq!(got, "\"rw\"");
        },
        other => panic!("unexpected {:?}", other),
    }
    assert_eq!(popen_display(b"ls -l"), "(popen: /bin/sh -c ls -l)");
}

#[test]
fn random_ranges() {
    assert_eq!(random_range(None, None).unwrap(), None);
    assert_eq!(random_range(Some(6), None).unwrap(), Some((1, 6)));
    assert_eq!(random_range(Some(10), Some(20)).unwrap(), Some((10, 20)));
    match random_range(Some(0), None) {
        Err(LibError::Runtime { message, .. }) => {
            assert_eq!(message, "bad argument #1 to 'random' (interval is empty)")
        },
        other => panic!("unexpected {:?}", other),
    }
    match random_range(Some(3), Some(2)) {
        Err(LibError::Runtime { message, .. }) => {
            assert_eq!(message, "bad argument #2 to 'random' (interval is empty)")
        },
        other => panic!("unexpected {:?}", other),
    }
    match random_range(None, Some(2)) {
        Err(LibError::Runtime { message, .. }) => {
            assert_eq!(message, "bad argument #1 to 'random' (number expected, got nil)")
        },
        other => panic!("unexpected {:?}", other),
    }
}

#[test]
fn random_errors_name_their_argument() {
    match random_range(Some(0), None) {
        Err(LibError::Runtime { arg_position, .. }) => assert_eq!(arg_position, Some(1)),
        other => panic!("unexpected {other:?}"),
    }
    match random_range(Some(5), Some(1)) {
        Err(LibError::Runtime { arg_position, .. }) => assert_eq!(arg_position, Some(2)),
        other => panic!("unexpected {other:?}"),
    }
}
