//! The `process` library: its registration, the command a run spawns,
//! the exchange with the child (feeding its standard input while its
//! output is captured, up to a cap), and the result of a run.
//!
//! The exchange is a state machine: the caller performs the reads and
//! writes and hands each outcome to it; the machine says what stays open
//! and when the exchange is over.
use vstd::prelude::*;
use crate::byte_str::{append_all, append_range};
use crate::env::{GlobalEnv, GlobalView, Module, install_module, installed};
use crate::error::{LibError, bad_argument, is_bad_argument_got, is_runtime, runtime_error};

verus! {

/// Build the `process` library table and register it as the `process` global.
pub fn register(env: &mut GlobalEnv) -> (r: Result<(), LibError>)
    ensures
        r is Ok,
        installed(
            *old(env),
            *final(env),
            "process"@,
            GlobalView::Table(seq![Module::Process]),
            Some("process"@),
        ),
{
    install_module(env, "process", Module::Process);
    Ok(())
}

/// The captured bytes after `data` arrives: all of it without a cap;
/// with a cap, as much as still fits, the capture marked truncated when
/// it was full already or some of `data` did not fit.
pub open spec fn capped(buf: Seq<u8>, data: Seq<u8>, cap: Option<usize>, truncated: bool) -> (Seq<u8>, bool) {
    match cap {
        None => (buf + data, truncated),
        Some(c) => if buf.len() >= c {
            (buf, true)
        } else if data.len() > c - buf.len() {
            (buf + data.take(c - buf.len()), true)
        } else {
            (buf + data, truncated)
        },
    }
}

/// Append `data` to a captured stream, honouring an optional byte cap.
pub fn append_capped(buf: &mut Vec<u8>, data: &[u8], cap: Option<usize>, truncated: &mut bool)
    ensures
        (final(buf)@, *final(truncated)) == capped(old(buf)@, data@, cap, *old(truncated)),
{
    match cap {
        Some(c) => {
            if buf.len() >= c {
                *truncated = true;
                return;
            }
            let room = c - buf.len();
            if data.len() > room {
                append_range(buf, data, 0, room);
                assert(data@.subrange(0, room as int) =~= data@.take(room as int));
                *truncated = true;
            } else {
                append_all(buf, data);
            }
        },
        None => append_all(buf, data),
    }
}

/// The cap holds: a capped capture never grows past its cap, unless it
/// was past it already.
pub proof fn law_capture_within_cap(buf: Seq<u8>, data: Seq<u8>, c: usize, truncated: bool)
    ensures
        capped(buf, data, Some(c), truncated).0.len() <= (if buf.len() > c {
            buf.len() as int
        } else {
            c as int
        }),
        capped(buf, data, Some(c), truncated).0.take(buf.len() as int) == buf,
{
    let r = capped(buf, data, Some(c), truncated).0;
    assert(r.take(buf.len() as int) =~= buf);
}


/// The command of a run: a shell command line, or an argument vector
/// whose first element is the program.
#[derive(Debug)]
pub enum Cmd {
    Shell(Vec<u8>),
    Argv(Vec<Vec<u8>>),
}

/// What to spawn: a program and its arguments.
#[derive(Debug)]
pub struct CommandPlan {
    pub program: Vec<u8>,
    pub args: Vec<Vec<u8>>,
}

/// A copy of a list of byte strings, from index `from` on.
fn copy_list(v: &Vec<Vec<u8>>, from: usize) -> (r: Vec<Vec<u8>>)
    requires
        from <= v@.len(),
    ensures
        r@.len() == v@.len() - from,
        forall|i: int| 0 <= i < r@.len() ==> #[trigger] r@[i]@ == v@[i + from]@,
{
    let mut out: Vec<Vec<u8>> = Vec::new();
    let mut k = from;
    while k < v.len()
        invariant
            from <= k <= v@.len(),
            out@.len() == k - from,
            forall|i: int| 0 <= i < out@.len() ==> #[trigger] out@[i]@ == v@[i + from]@,
        decreases v@.len() - k,
    {
        let n = v[k].len();
        let c = crate::byte_str::copy_range(v[k].as_slice(), 0, n);
        assert(v@[k as int]@.subrange(0, n as int) =~= v@[k as int]@);
        out.push(c);
        k = k + 1;
    }
    out
}

/// The command a run spawns: a shell line goes to `/bin/sh -c`; an
/// argument vector spawns its first element with the rest as arguments,
/// and an empty one is a bad argument.
pub fn command_plan(cmd: &Cmd) -> (r: Result<CommandPlan, LibError>)
    ensures
        match cmd {
            Cmd::Shell(line) => r matches Ok(p) && p.program@ == "/bin/sh"@.map_values(
                |c: char| c as u8,
            ) && p.args@.len() == 2 && p.args@[0]@ == seq![45u8, 99u8] && p.args@[1]@ == line@,
            Cmd::Argv(v) => if v@.len() == 0 {
                r matches Err(e) && is_bad_argument_got(
                    e,
                    1,
                    "process.run"@,
                    "a non-empty command vector"@,
                    "an empty table"@,
                )
            } else {
                r matches Ok(p) && p.program@ == v@[0]@ && p.args@.len() == v@.len() - 1 && forall|
                    i: int,
                | 0 <= i < p.args@.len() ==> #[trigger] p.args@[i]@ == v@[i + 1]@
            },
        },
{
    match cmd {
        Cmd::Shell(line) => {
            let program: Vec<u8> = vec![47u8, 98u8, 105u8, 110u8, 47u8, 115u8, 104u8];
            proof {
                reveal_strlit("/bin/sh");
                assert(program@ =~= "/bin/sh"@.map_values(|c: char| c as u8));
            }
            let n = line.len();
            let l = crate::byte_str::copy_range(line.as_slice(), 0, n);
            assert(line@.subrange(0, n as int) =~= line@);
            let dash_c: Vec<u8> = vec![45u8, 99u8];
            let args = vec![dash_c, l];
            Ok(CommandPlan { program, args })
        },
        Cmd::Argv(v) => {
            if v.len() == 0 {
                return Err(
                    bad_argument(
                        1,
                        "process.run",
                        "a non-empty command vector",
                        String::from_str("an empty table"),
                    ),
                );
            }
            let n = v[0].len();
            let program = crate::byte_str::copy_range(v[0].as_slice(), 0, n);
            assert(v@[0]@.subrange(0, n as int) =~= v@[0]@);
            let args = copy_list(v, 1);
            Ok(CommandPlan { program, args })
        },
    }
}

/// The byte cap of each captured stream: `max_output` when it is not
/// negative, else none.
pub fn output_cap(max_output: Option<i64>) -> (r: Option<usize>)
    ensures
        r == (match max_output {
            Some(n) => if n >= 0 {
                Some(n as usize)
            } else {
                None
            },
            None => None,
        }),
{
    match max_output {
        Some(n) => if n >= 0 {
            Some(n as usize)
        } else {
            None
        },
        None => None,
    }
}

/// What the captured streams hold, whether a cap was reached, and the
/// first failure worth reporting.
#[derive(Debug)]
pub struct Captured {
    pub stdout: Vec<u8>,
    pub stderr: Vec<u8>,
    pub truncated: bool,
    pub io_error: Option<String>,
}

/// What a read of a captured stream gave.
#[derive(Debug)]
pub enum ReadEvent {
    /// Some bytes.
    Data(Vec<u8>),
    /// End of file.
    End,
    /// A failure, by its description.
    Failed(String),
}

/// What a write to the child's standard input gave.
#[derive(Debug)]
pub enum WriteEvent {
    /// That many bytes were written.
    Wrote(usize),
    /// The pipe is broken: the child stopped reading.
    BrokenPipe,
    /// Another failure, by its description.
    Failed(String),
}

/// The exchange with a child: which streams are still open, how much of
/// the input is written, what is captured, and whether the exchange
/// stopped at the cap.
#[derive(Debug)]
pub struct Exchange {
    pub stdout_open: bool,
    pub stderr_open: bool,
    pub stdin_open: bool,
    pub written: usize,
    pub input_len: usize,
    pub cap: Option<usize>,
    pub captured: Captured,
    pub stopped: bool,
}

/// `message` prefixed with the name of the stream it concerns.
pub open spec fn stream_message(prefix: Seq<char>, message: Seq<char>) -> Seq<char> {
    prefix + message
}

/// The failure noted: the first one stays.
pub open spec fn noted(io_error: Option<String>, message: Seq<char>) -> Option<Seq<char>> {
    match io_error {
        Some(m) => Some(m@),
        None => Some(message),
    }
}

/// The view of an optional failure.
pub open spec fn failure_view(io_error: Option<String>) -> Option<Seq<char>> {
    match io_error {
        Some(m) => Some(m@),
        None => None,
    }
}

impl Exchange {
    /// An exchange with a child whose outputs are captured under `cap`,
    /// and whose standard input, when piped, receives `input_len` bytes
    /// (an input that is empty is closed at once).
    pub fn new(stdin_piped: bool, input_len: usize, cap: Option<usize>) -> (r: Exchange)
        ensures
            r.stdout_open && r.stderr_open,
            r.stdin_open == (stdin_piped && input_len > 0),
            r.written == 0,
            r.input_len == input_len,
            r.cap == cap,
            r.captured.stdout@.len() == 0 && r.captured.stderr@.len() == 0,
            !r.captured.truncated,
            r.captured.io_error is None,
            !r.stopped,
    {
        Exchange {
            stdout_open: true,
            stderr_open: true,
            stdin_open: stdin_piped && input_len > 0,
            written: 0,
            input_len,
            cap,
            captured: Captured {
                stdout: Vec::new(),
                stderr: Vec::new(),
                truncated: false,
                io_error: None,
            },
            stopped: false,
        }
    }

    /// The exchange goes on while it has not stopped at the cap and some
    /// stream is open.
    pub open spec fn running_spec(&self) -> bool {
        !self.stopped && (self.stdout_open || self.stderr_open || self.stdin_open)
    }

    /// Whether the exchange goes on (see `running_spec`).
    pub fn running(&self) -> (r: bool)
        ensures
            r == self.running_spec(),
    {
        !self.stopped && (self.stdout_open || self.stderr_open || self.stdin_open)
    }

    /// The bytes of the input still to write start here.
    pub open spec fn wf(&self) -> bool {
        self.written <= self.input_len
    }

    fn note_failure(&mut self, prefix: &str, description: String)
        ensures
            failure_view(final(self).captured.io_error) == noted(
                old(self).captured.io_error,
                stream_message(prefix@, description@),
            ),
            final(self).captured.stdout@ == old(self).captured.stdout@,
            final(self).captured.stderr@ == old(self).captured.stderr@,
            final(self).captured.truncated == old(self).captured.truncated,
            final(self).stdout_open == old(self).stdout_open,
            final(self).stderr_open == old(self).stderr_open,
            final(self).stdin_open == old(self).stdin_open,
            final(self).written == old(self).written,
            final(self).input_len == old(self).input_len,
            final(self).cap == old(self).cap,
            final(self).stopped == old(self).stopped,
    {
        if self.captured.io_error.is_none() {
            let mut m = String::from_str(prefix);
            m.append(description.as_str());
            self.captured.io_error = Some(m);
        }
    }

    /// Take the outcome of a read of the child's standard output: data
    /// is captured under the cap, and reaching the cap stops the
    /// exchange; the end of file, or a failure (noted as `stdout: ...`
    /// unless one is noted already), closes the stream.
    pub fn on_stdout(&mut self, event: ReadEvent)
        ensures
            final(self).stderr_open == old(self).stderr_open,
            final(self).stdin_open == old(self).stdin_open,
            final(self).written == old(self).written,
            final(self).input_len == old(self).input_len,
            final(self).cap == old(self).cap,
            final(self).captured.stderr@ == old(self).captured.stderr@,
            match event {
                ReadEvent::Data(d) => {
                    &&& (final(self).captured.stdout@, final(self).captured.truncated) == capped(
                        old(self).captured.stdout@,
                        d@,
                        old(self).cap,
                        old(self).captured.truncated,
                    )
                    &&& final(self).stdout_open == old(self).stdout_open
                    &&& final(self).stopped == (old(self).stopped || final(self).captured.truncated)
                    &&& final(self).captured.io_error == old(self).captured.io_error
                },
                ReadEvent::End => {
                    &&& !final(self).stdout_open
                    &&& final(self).captured.stdout@ == old(self).captured.stdout@
                    &&& final(self).captured.truncated == old(self).captured.truncated
                    &&& final(self).stopped == old(self).stopped
                    &&& final(self).captured.io_error == old(self).captured.io_error
                },
                ReadEvent::Failed(m) => {
                    &&& !final(self).stdout_open
                    &&& final(self).captured.stdout@ == old(self).captured.stdout@
                    &&& final(self).captured.truncated == old(self).captured.truncated
                    &&& final(self).stopped == old(self).stopped
                    &&& failure_view(final(self).captured.io_error) == noted(
                        old(self).captured.io_error,
                        stream_message("stdout: "@, m@),
                    )
                },
            },
    {
        match event {
            ReadEvent::Data(d) => {
                append_capped(&mut self.captured.stdout, d.as_slice(), self.cap, &mut self.captured.truncated);
                if self.captured.truncated {
                    self.stopped = true;
                }
            },
            ReadEvent::End => {
                self.stdout_open = false;
            },
            ReadEvent::Failed(m) => {
                self.note_failure("stdout: ", m);
                self.stdout_open = false;
            },
        }
    }

    /// Take the outcome of a read of the child's standard error (see
    /// `on_stdout`; a failure is noted as `stderr: ...`).
    pub fn on_stderr(&mut self, event: ReadEvent)
        ensures
            final(self).stdout_open == old(self).stdout_open,
            final(self).stdin_open == old(self).stdin_open,
            final(self).written == old(self).written,
            final(self).input_len == old(self).input_len,
            final(self).cap == old(self).cap,
            final(self).captured.stdout@ == old(self).captured.stdout@,
            match event {
                ReadEvent::Data(d) => {
                    &&& (final(self).captured.stderr@, final(self).captured.truncated) == capped(
                        old(self).captured.stderr@,
                        d@,
                        old(self).cap,
                        old(self).captured.truncated,
                    )
                    &&& final(self).stderr_open == old(self).stderr_open
                    &&& final(self).stopped == (old(self).stopped || final(self).captured.truncated)
                    &&& final(self).captured.io_error == old(self).captured.io_error
                },
                ReadEvent::End => {
                    &&& !final(self).stderr_open
                    &&& final(self).captured.stderr@ == old(self).captured.stderr@
                    &&& final(self).captured.truncated == old(self).captured.truncated
                    &&& final(self).stopped == old(self).stopped
                    &&& final(self).captured.io_error == old(self).captured.io_error
                },
                ReadEvent::Failed(m) => {
                    &&& !final(self).stderr_open
                    &&& final(self).captured.stderr@ == old(self).captured.stderr@
                    &&& final(self).captured.truncated == old(self).captured.truncated
                    &&& final(self).stopped == old(self).stopped
                    &&& failure_view(final(self).captured.io_error) == noted(
                        old(self).captured.io_error,
                        stream_message("stderr: "@, m@),
                    )
                },
            },
    {
        match event {
            ReadEvent::Data(d) => {
                append_capped(&mut self.captured.stderr, d.as_slice(), self.cap, &mut self.captured.truncated);
                if self.captured.truncated {
                    self.stopped = true;
                }
            },
            ReadEvent::End => {
                self.stderr_open = false;
            },
            ReadEvent::Failed(m) => {
                self.note_failure("stderr: ", m);
                self.stderr_open = false;
            },
        }
    }

    /// Take the outcome of a write to the child's standard input: bytes
    /// written advance the input, which is closed once all of it is
    /// written or when nothing more is accepted; a broken pipe closes it
    /// silently, any other failure closes it and is noted as
    /// `stdin: ...` unless one is noted already.
    pub fn on_stdin(&mut self, event: WriteEvent)
        requires
            old(self).wf(),
            event matches WriteEvent::Wrote(n) ==> n <= old(self).input_len - old(self).written,
        ensures
            final(self).wf(),
            final(self).stdout_open == old(self).stdout_open,
            final(self).stderr_open == old(self).stderr_open,
            final(self).input_len == old(self).input_len,
            final(self).cap == old(self).cap,
            final(self).stopped == old(self).stopped,
            final(self).captured.stdout@ == old(self).captured.stdout@,
            final(self).captured.stderr@ == old(self).captured.stderr@,
            final(self).captured.truncated == old(self).captured.truncated,
            match event {
                WriteEvent::Wrote(n) => {
                    &&& n == 0 ==> !final(self).stdin_open && final(self).written == old(self).written
                    &&& n > 0 ==> final(self).written == old(self).written + n
                        && final(self).stdin_open == (old(self).stdin_open && final(self).written
                        < final(self).input_len)
                    &&& final(self).captured.io_error == old(self).captured.io_error
                },
                WriteEvent::BrokenPipe => {
                    &&& !final(self).stdin_open
                    &&& final(self).written == old(self).written
                    &&& final(self).captured.io_error == old(self).captured.io_error
                },
                WriteEvent::Failed(m) => {
                    &&& !final(self).stdin_open
                    &&& final(self).written == old(self).written
                    &&& failure_view(final(self).captured.io_error) == noted(
                        old(self).captured.io_error,
                        stream_message("stdin: "@, m@),
                    )
                },
            },
    {
        match event {
            WriteEvent::Wrote(n) => {
                if n == 0 {
                    self.stdin_open = false;
                } else {
                    self.written = self.written + n;
                    if self.written >= self.input_len {
                        self.stdin_open = false;
                    }
                }
            },
            WriteEvent::BrokenPipe => {
                self.stdin_open = false;
            },
            WriteEvent::Failed(m) => {
                self.note_failure("stdin: ", m);
                self.stdin_open = false;
            },
        }
    }

    /// Whether the child must be killed (and its reaping bounded) once
    /// the exchange is over: on a timeout, a reached cap, or a noted
    /// failure.
    pub fn must_kill(&self, timed_out: bool) -> (r: bool)
        ensures
            r == (timed_out || self.captured.truncated || self.captured.io_error is Some),
    {
        timed_out || self.captured.truncated || self.captured.io_error.is_some()
    }
}

/// The result of a run.
#[derive(Debug)]
pub struct RunResult {
    pub code: Option<i64>,
    pub signal: Option<i64>,
    pub ok: bool,
    pub stdout: Vec<u8>,
    pub stderr: Vec<u8>,
    pub timed_out: bool,
    pub truncated: bool,
    pub io_error: Option<String>,
}

/// The result of a run that ended with exit `code` or `signal`: it is
/// `ok` when the code is 0, no signal came, the run did not time out,
/// reach the cap or fail to capture.
pub fn run_result(code: Option<i64>, signal: Option<i64>, timed_out: bool, captured: Captured) -> (r: RunResult)
    ensures
        r.ok == (code == Some(0i64) && signal is None && !timed_out && !captured.truncated
            && captured.io_error is None),
        r.code == code,
        r.signal == signal,
        r.stdout@ == captured.stdout@,
        r.stderr@ == captured.stderr@,
        r.timed_out == timed_out,
        r.truncated == captured.truncated,
        failure_view(r.io_error) == failure_view(captured.io_error),
{
    let ok = match code {
        Some(c) => c == 0,
        None => false,
    } && signal.is_none() && !timed_out && !captured.truncated && captured.io_error.is_none();
    RunResult {
        ok,
        code,
        signal,
        stdout: captured.stdout,
        stderr: captured.stderr,
        timed_out,
        truncated: captured.truncated,
        io_error: captured.io_error,
    }
}

/// The error when the child cannot be spawned.
pub fn spawn_error(description: &str) -> (e: LibError)
    ensures
        is_runtime(e, "failed to spawn process: "@ + description@),
{
    let mut m = String::from_str("failed to spawn process: ");
    m.append(description);
    runtime_error(m)
}

/// The error when waiting for the child fails.
pub fn wait_error(description: &str) -> (e: LibError)
    ensures
        is_runtime(e, "failed to wait for process: "@ + description@),
{
    let mut m = String::from_str("failed to wait for process: ");
    m.append(description);
    runtime_error(m)
}

} // verus!
