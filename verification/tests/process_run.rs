//! Tests of `process.run`: the command spawned, the exchange with the
//! child, and the result.
use shingetsu::error::LibError;
use shingetsu::process::{
    command_plan, output_cap, run_result, spawn_error, Cmd, Exchange, ReadEvent, WriteEvent,
};

#[test]
fn shell_lines_go_to_sh() {
    let p = command_plan(&Cmd::Shell(b"printf hi | tr a-z A-Z".to_vec())).unwrap();
    assert_eq!(p.program, b"/bin/sh".to_vec());
    assert_eq!(p.args, vec![b"-c".to_vec(), b"printf hi | tr a-z A-Z".to_vec()]);
}

#[test]
fn argument_vectors_spawn_their_first_element() {
    let v = vec![b"tr".to_vec(), b"a-z".to_vec(), b"A-Z".to_vec()];
    let p = command_plan(&Cmd::Argv(v)).unwrap();
    assert_eq!(p.program, b"tr".to_vec());
    assert_eq!(p.args, vec![b"a-z".to_vec(), b"A-Z".to_vec()]);
    match command_plan(&Cmd::Argv(Vec::new())) {
        Err(LibError::BadArgument { position, function, expected, got }) => {
            assert_eq!(position, 1);
            assert_eq!(function, "process.run");
            assert_eq!(expected, "a non-empty command vector");
            assert_eq!(got, "an empty table");
        },
        other => panic!("unexpected {:?}", other),
    }
}

#[test]
fn output_caps() {
    assert_eq!(output_cap(Some(0)), Some(0));
    assert_eq!(output_cap(Some(10)), Some(10));
    assert_eq!(output_cap(Some(-1)), None);
    assert_eq!(output_cap(None), None);
}

#[test]
fn exchange_feeds_input_and_captures_output() {
    let mut x = Exchange::new(true, 3, None);
    assert!(x.running());
    x.on_stdin(WriteEvent::Wrote(2));
    assert!(x.stdin_open);
    x.on_stdout(ReadEvent::Data(b"HI".to_vec()));
    x.on_stdin(WriteEvent::Wrote(1));
    assert!(!x.stdin_open);
    x.on_stdout(ReadEvent::Data(b"\n".to_vec()));
    x.on_stdout(ReadEvent::End);
    x.on_stderr(ReadEvent::End);
    assert!(!x.running());
    assert!(!x.must_kill(false));
    let r = run_result(Some(0), None, false, x.captured);
    assert!(r.ok);
    assert_eq!(r.stdout, b"HI\n".to_vec());
    assert_eq!(r.stderr, Vec::<u8>::new());
}

#[test]
fn empty_input_closes_stdin_at_once() {
    let x = Exchange::new(true, 0, None);
    assert!(!x.stdin_open);
    let y = Exchange::new(false, 5, None);
    assert!(!y.stdin_open);
}

#[test]
fn reaching_the_cap_stops_the_exchange() {
    let mut x = Exchange::new(false, 0, Some(4));
    x.on_stdout(ReadEvent::Data(b"hello".to_vec()));
    assert!(x.captured.truncated);
    assert!(!x.running());
    assert!(x.must_kill(false));
    assert_eq!(x.captured.stdout, b"hell".to_vec());
    let r = run_result(Some(0), None, false, x.captured);
    assert!(!r.ok);
    assert!(r.truncated);
}

#[test]
fn first_failure_is_kept_and_broken_pipes_are_quiet() {
    let mut x = Exchange::new(true, 10, None);
    x.on_stdin(WriteEvent::BrokenPipe);
    assert!(!x.stdin_open);
    assert_eq!(x.captured.io_error, None);
    x.on_stdout(ReadEvent::Failed("Connection reset".to_string()));
    x.on_stderr(ReadEvent::Failed("Bad file descriptor".to_string()));
    assert_eq!(x.captured.io_error, Some("stdout: Connection reset".to_string()));
    assert!(x.must_kill(false));
    let r = run_result(Some(0), None, false, x.captured);
    assert!(!r.ok);
}

#[test]
fn signals_and_timeouts_are_not_ok() {
    let empty = || Exchange::new(false, 0, None).captured;
    assert!(!run_result(None, Some(9), false, empty()).ok);
    assert!(!run_result(Some(0), None, true, empty()).ok);
    assert!(!run_result(Some(1), None, false, empty()).ok);
    match spawn_error("No such file or directory") {
        LibError::Runtime { message, .. } => {
            assert_eq!(message, "failed to spawn process: No such file or directory")
        },
        other => panic!("unexpected {:?}", other),
    }
}
