//! The rules of `load`, `loadfile`, `dofile`, `error` and
//! `collectgarbage` around the compiler, the collector and the call
//! stack: where a chunk's text comes from and what it is called, which
//! load modes are accepted, and where `error` places its message.
use vstd::prelude::*;
use crate::decimal::{append_digits, ascii_text, nat_digits};
use crate::io_lib::{lossy_text, utf8_lossy};
use vstd::utf8::{decode_utf8, valid_utf8};
use crate::report::CompileErrorKind;

verus! {

/// `String::from_utf8` on a copy of `b`: the text, when `b` is UTF-8.
#[verifier::external_body]
pub(crate) fn utf8_string(b: &[u8]) -> (r: Option<String>)
    ensures
        r is Some <==> valid_utf8(b@),
        r matches Some(s) ==> s@ == decode_utf8(b@),
{
    String::from_utf8(b.to_vec()).ok()
}

/// The level of `error(msg, level)`: an integer as given (taken as a
/// `usize`), 1 by default.  A float level is passed here already
/// truncated.
pub fn error_level(level: Option<i64>) -> (r: usize)
    ensures
        r == (match level {
            Some(n) => n as usize,
            None => 1usize,
        }),
{
    match level {
        Some(n) => n as usize,
        None => 1,
    }
}

/// The Lua frame whose position `error` puts before its message, of
/// `count` Lua frames listed outermost first: level 1 is the innermost;
/// level 0, or one past the outermost, names none.
pub fn frame_for_level(count: usize, level: usize) -> (r: Option<usize>)
    ensures
        r == (if 0 < level <= count {
            Some((count - level) as usize)
        } else {
            None::<usize>
        }),
{
    if 0 < level && level <= count {
        Some(count - level)
    } else {
        None
    }
}

/// `error`'s message with its position: `source:line: message`, the
/// message's invalid UTF-8 replaced.
pub fn located_message(source: &str, line: u64, msg: &[u8]) -> (r: String)
    ensures
        r@ == source@ + ":"@ + ascii_text(nat_digits(line as nat)) + ": "@ + utf8_lossy(msg@),
{
    let mut s = String::from_str(source);
    s.append(":");
    append_digits(&mut s, line);
    s.append(": ");
    let t = lossy_text(msg);
    s.append(t.as_str());
    s
}

/// What `collectgarbage(opt)` is asked.
#[derive(Debug, PartialEq, Eq)]
pub enum GcRequest {
    /// Collect now (the default).
    Collect,
    /// The memory in use.
    Count,
    /// Whether the collector runs.
    IsRunning,
    /// Any other option, answered 0.
    Other,
}

fn bytes_are(a: &[u8], b: &[u8]) -> (r: bool)
    ensures
        r == (a@ == b@),
{
    if a.len() != b.len() {
        return false;
    }
    let r = crate::byte_str::range_eq(a, 0, b);
    proof {
        assert(a@.subrange(0, b@.len() as int) =~= a@);
    }
    r
}

/// The request of `collectgarbage(opt)`: `collect` (also when absent),
/// `count`, `isrunning`, or another.
pub fn gc_request(opt: Option<&[u8]>) -> (r: GcRequest)
    ensures
        r == (match opt {
            None => GcRequest::Collect,
            Some(o) => if o@ == seq![99u8, 111u8, 108u8, 108u8, 101u8, 99u8, 116u8] {
                GcRequest::Collect
            } else if o@ == seq![99u8, 111u8, 117u8, 110u8, 116u8] {
                GcRequest::Count
            } else if o@ == seq![105u8, 115u8, 114u8, 117u8, 110u8, 110u8, 105u8, 110u8, 103u8] {
                GcRequest::IsRunning
            } else {
                GcRequest::Other
            },
        }),
{
    match opt {
        None => GcRequest::Collect,
        Some(o) => {
            let collect: [u8; 7] = [99u8, 111u8, 108u8, 108u8, 101u8, 99u8, 116u8];
            let count: [u8; 5] = [99u8, 111u8, 117u8, 110u8, 116u8];
            let running: [u8; 9] = [105u8, 115u8, 114u8, 117u8, 110u8, 110u8, 105u8, 110u8, 103u8];
            assert(collect@ =~= seq![99u8, 111u8, 108u8, 108u8, 101u8, 99u8, 116u8]);
            assert(count@ =~= seq![99u8, 111u8, 117u8, 110u8, 116u8]);
            assert(running@ =~= seq![105u8, 115u8, 114u8, 117u8, 110u8, 110u8, 105u8, 110u8, 103u8]);
            if bytes_are(o, &collect) {
                GcRequest::Collect
            } else if bytes_are(o, &count) {
                GcRequest::Count
            } else if bytes_are(o, &running) {
                GcRequest::IsRunning
            } else {
                GcRequest::Other
            }
        },
    }
}

/// The message when a chunk is not UTF-8.
pub open spec fn not_utf8_message() -> Seq<char> {
    "load: chunk is not valid UTF-8"@
}

/// A chunk given as a string: its text, and the string itself as the
/// default chunk name; a chunk that is not UTF-8 is refused.
pub fn string_chunk(s: &[u8]) -> (r: Result<(String, String), String>)
    ensures
        match r {
            Ok((text, name)) => valid_utf8(s@) && text@ == decode_utf8(s@) && name@ == text@,
            Err(m) => !valid_utf8(s@) && m@ == not_utf8_message(),
        },
{
    match utf8_string(s) {
        Some(text) => {
            let name = text.clone();
            Ok((text, name))
        },
        None => Err(String::from_str("load: chunk is not valid UTF-8")),
    }
}

/// A chunk given as a reader function: the pieces read so far, gathered
/// until the reader gives something other than a non-empty string.
#[derive(Debug)]
pub struct ChunkReader {
    pub buf: Vec<u8>,
    pub done: bool,
}

impl ChunkReader {
    /// A reader that has read nothing.
    pub fn new() -> (r: ChunkReader)
        ensures
            r.buf@.len() == 0,
            !r.done,
    {
        ChunkReader { buf: Vec::new(), done: false }
    }

    /// Take what the reader gave (`Some` for a string): a non-empty
    /// string is added and reading goes on; anything else ends it.
    pub fn take(&mut self, piece: Option<&[u8]>)
        ensures
            match piece {
                Some(p) => if p@.len() > 0 {
                    final(self).buf@ == old(self).buf@ + p@ && final(self).done == old(self).done
                } else {
                    final(self).buf@ == old(self).buf@ && final(self).done
                },
                None => final(self).buf@ == old(self).buf@ && final(self).done,
            },
    {
        match piece {
            Some(p) => if p.len() > 0 {
                crate::byte_str::append_all(&mut self.buf, p);
            } else {
                self.done = true;
            },
            None => {
                self.done = true;
            },
        }
    }

    /// The chunk read: its text, named `=(load)`; a chunk that is not
    /// UTF-8 is refused.
    pub fn finish(&self) -> (r: Result<(String, String), String>)
        ensures
            match r {
                Ok((text, name)) => valid_utf8(self.buf@) && text@ == decode_utf8(self.buf@) && name@
                    == "=(load)"@,
                Err(m) => !valid_utf8(self.buf@) && m@ == not_utf8_message(),
            },
    {
        match utf8_string(self.buf.as_slice()) {
            Some(text) => Ok((text, String::from_str("=(load)"))),
            None => Err(String::from_str("load: chunk is not valid UTF-8")),
        }
    }
}

/// Whether `b` holds the byte `t`.
pub open spec fn has_t(b: Seq<u8>) -> bool {
    exists|i: int| 0 <= i < b.len() && b[i] == 116u8
}

/// `load`'s mode check: a text chunk needs `t` in the mode (`t` when
/// absent); else the message naming the mode (invalid UTF-8 replaced).
pub fn load_mode_error(mode: Option<&[u8]>) -> (r: Option<String>)
    ensures
        match mode {
            None => r is None,
            Some(m) => if has_t(m@) {
                r is None
            } else {
                r matches Some(e) && e@ == "attempt to load a text chunk (mode is '"@ + utf8_lossy(m@)
                    + "')"@
            },
        },
{
    match mode {
        None => None,
        Some(m) => {
            let mut i: usize = 0;
            while i < m.len()
                invariant
                    i <= m@.len(),
                    mode == Some(m),
                    forall|k: int| 0 <= k < i ==> m@[k] != 116u8,
                decreases m@.len() - i,
            {
                if m[i] == 116 {
                    assert(m@[i as int] == 116u8);
                    return None;
                }
                i = i + 1;
            }
            let mut e = String::from_str("attempt to load a text chunk (mode is '");
            let t = lossy_text(m);
            e.append(t.as_str());
            e.append("')");
            Some(e)
        },
    }
}

/// The chunk name of a file chunk: `@` and the file's display name.
pub fn file_chunk_name(display: &str) -> (r: String)
    ensures
        r@ == "@"@ + display@,
{
    let mut s = String::from_str("@");
    s.append(display);
    s
}

/// The message when a chunk's file cannot be read.
pub fn open_failure(display: &str, description: &str) -> (r: String)
    ensures
        r@ == "cannot open "@ + display@ + ": "@ + description@,
{
    let mut s = String::from_str("cannot open ");
    s.append(display);
    s.append(": ");
    s.append(description);
    s
}


/// The text of a compile error as `load`, `loadfile` and `dofile` report
/// it: the error's own text, `base`, followed for a semantic error with a
/// help text by a newline and `help: ` and that text.
pub open spec fn compile_error_text(base: Seq<char>, kind: CompileErrorKind, help: Option<Seq<char>>) -> Seq<char> {
    match (kind, help) {
        (CompileErrorKind::Semantic, Some(h)) => base + "\nhelp: "@ + h,
        _ => base,
    }
}

/// Format a compile error for a runtime error message, keeping its help
/// text on a second line.
pub fn format_compile_error(base: &str, kind: CompileErrorKind, help: Option<&str>) -> (r: String)
    ensures
        r@ == compile_error_text(
            base@,
            kind,
            match help {
                Some(h) => Some(h@),
                None => None,
            },
        ),
{
    let mut out = String::from_str(base);
    match (kind, help) {
        (CompileErrorKind::Semantic, Some(h)) => {
            out.append("\nhelp: ");
            out.append(h);
        },
        _ => {},
    }
    out
}

} // verus!
