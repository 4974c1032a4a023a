//! Pieces of diagnostic rendering: the output style, the span underlined
//! for a source location, the label placed under it, and the stack
//! traceback that follows a runtime error.
use vstd::prelude::*;
use crate::decimal::{append_digits, ascii_text, nat_digits};
use crate::io_lib::{lossy_text, utf8_lossy};

verus! {

/// Whether diagnostic output includes ANSI color codes.
#[derive(Debug, Clone, Copy, PartialEq, Eq, Structural)]
pub enum RenderStyle {
    Colored,
    Plain,
}

/// ASCII letters, digits and `_`.
pub open spec fn is_word_byte(b: u8) -> bool {
    (48 <= b <= 57) || (65 <= b <= 90) || (97 <= b <= 122) || b == 95
}

/// The end of the run of word bytes from `i`.
pub open spec fn word_run(s: Seq<u8>, i: int) -> int
    decreases s.len() - i,
{
    if 0 <= i < s.len() && is_word_byte(s[i]) {
        word_run(s, i + 1)
    } else {
        i
    }
}

/// The end of the token at `pos`: the run of word bytes, or one byte when
/// there is none; `pos` itself past the end of the source.
pub open spec fn token_end_spec(s: Seq<u8>, pos: int) -> int {
    if pos >= s.len() {
        pos
    } else if word_run(s, pos) == pos {
        pos + 1
    } else {
        word_run(s, pos)
    }
}

fn word_byte(b: u8) -> (r: bool)
    ensures
        r == is_word_byte(b),
{
    (48 <= b && b <= 57) || (65 <= b && b <= 90) || (97 <= b && b <= 122) || b == 95
}

/// The end of the token starting at byte `pos` of the source.
pub fn find_token_end(source: &[u8], pos: usize) -> (r: usize)
    ensures
        r == token_end_spec(source@, pos as int),
{
    let n = source.len();
    if pos >= n {
        return pos;
    }
    let mut end = pos;
    while end < n && word_byte(source[end])
        invariant
            pos <= end <= n,
            n == source@.len(),
            word_run(source@, end as int) == word_run(source@, pos as int),
        decreases n - end,
    {
        end = end + 1;
    }
    if end == pos {
        end = end + 1;
    }
    end
}

/// The byte span underlined for a location with a byte offset and length:
/// `len` bytes, or the token at the offset when the length is zero,
/// clipped to the end of the source.
pub open spec fn span_spec(s: Seq<u8>, offset: int, len: int) -> (int, int) {
    let end = if len > 0 {
        offset + len
    } else {
        token_end_spec(s, offset)
    };
    (offset, if end < s.len() {
        end
    } else {
        s.len() as int
    })
}

/// The byte span underlined for a location.
pub fn annotation_span(source: &[u8], offset: u32, len: u32) -> (r: (usize, usize))
    ensures
        r.0 as int == span_spec(source@, offset as int, len as int).0,
        r.1 as int == span_spec(source@, offset as int, len as int).1,
{
    let start = offset as usize;
    let n = source.len();
    let end: u64 = if len > 0 {
        (start as u64) + (len as u64)
    } else {
        find_token_end(source, start) as u64
    };
    let clipped = if end < (n as u64) {
        end as usize
    } else {
        n
    };
    (start, clipped)
}

/// The label under an annotation: the message, or its first line followed
/// by ` ...` when it spans several lines.
pub open spec fn label_spec(m: Seq<char>) -> Seq<char> {
    match first_newline(m, 0) {
        None => m,
        Some(k) => strip_cr_char(m.subrange(0, k)) + " ..."@,
    }
}

/// The index of the first newline at or after `i`.
pub open spec fn first_newline(m: Seq<char>, i: int) -> Option<int>
    decreases m.len() - i,
{
    if i < 0 || i >= m.len() {
        None
    } else if m[i] == '\n' {
        Some(i)
    } else {
        first_newline(m, i + 1)
    }
}

/// A line without one trailing carriage return.
pub open spec fn strip_cr_char(l: Seq<char>) -> Seq<char> {
    if l.len() > 0 && l.last() == '\r' {
        l.drop_last()
    } else {
        l
    }
}

/// The label under an annotation for `message`.
pub fn annotation_label(message: &str) -> (r: String)
    ensures
        r@ == label_spec(message@),
{
    let n = message.unicode_len();
    let mut k: usize = 0;
    while k < n
        invariant
            k <= n,
            n == message@.len(),
            first_newline(message@, k as int) == first_newline(message@, 0),
        decreases n - k,
    {
        if message.get_char(k) == '\n' {
            let mut e = k;
            if e > 0 && message.get_char(e - 1) == '\r' {
                e = e - 1;
            }
            let first = message.substring_char(0, e);
            let mut out = String::from_str(first);
            proof {
                reveal_strlit(" ...");
                let l = message@.subrange(0, k as int);
                if k > 0 && message@[k - 1] == '\r' {
                    assert(l.drop_last() =~= message@.subrange(0, e as int));
                } else {
                    assert(l =~= message@.subrange(0, e as int));
                }
            }
            out.append(" ...");
            return out;
        }
        k = k + 1;
    }
    String::from_str(message)
}

/// A frame of a call stack, as the traceback reads it: a Lua function with
/// its display location (`source:line`, when known), name and source name;
/// or a native function by its name.
#[derive(Debug)]
pub enum FrameInfo {
    Lua { location: Option<String>, name: Vec<u8>, source: Vec<u8> },
    Native { name: Vec<u8> },
}

/// The traceback line of a frame.
pub open spec fn frame_text(f: FrameInfo) -> Seq<char> {
    match f {
        FrameInfo::Lua { location, name, source } => {
            let loc = match location {
                Some(l) => l@,
                None => "?"@,
            };
            if utf8_lossy(name@) == utf8_lossy(source@) || utf8_lossy(name@).len() == 0 {
                loc + ": in main chunk"@
            } else {
                loc + ": in function "@ + utf8_lossy(name@) + "()"@
            }
        },
        FrameInfo::Native { name } => "[Native]: in function "@ + utf8_lossy(name@),
    }
}

/// The traceback line of a frame.
pub fn format_frame(f: &FrameInfo) -> (r: String)
    ensures
        r@ == frame_text(*f),
{
    match f {
        FrameInfo::Lua { location, name, source } => {
            let mut out = match location {
                Some(l) => l.clone(),
                None => String::from_str("?"),
            };
            let n = lossy_text(name.as_slice());
            let src = lossy_text(source.as_slice());
            if n == src || n.as_str().unicode_len() == 0 {
                out.append(": in main chunk");
            } else {
                out.append(": in function ");
                out.append(n.as_str());
                out.append("()");
            }
            out
        },
        FrameInfo::Native { name } => {
            let mut out = String::from_str("[Native]: in function ");
            let n = lossy_text(name.as_slice());
            out.append(n.as_str());
            out
        },
    }
}

/// The lines, with each run of equal consecutive lines as one line and
/// the length of the run.
pub open spec fn collapse(lines: Seq<Seq<char>>) -> Seq<(Seq<char>, nat)>
    decreases lines.len(),
{
    if lines.len() == 0 {
        Seq::empty()
    } else {
        let c = collapse(lines.drop_last());
        if c.len() > 0 && c.last().0 == lines.last() {
            c.update(c.len() - 1, (lines.last(), c.last().1 + 1))
        } else {
            c.push((lines.last(), 1))
        }
    }
}

/// The traceback lines of the frames, innermost first.
pub open spec fn frame_lines(stack: Seq<FrameInfo>) -> Seq<Seq<char>> {
    Seq::new(stack.len(), |i: int| frame_text(stack[stack.len() - 1 - i]))
}

/// One collapsed line: the line, and a note of how often it repeats.
pub open spec fn entry_text(e: (Seq<char>, nat)) -> Seq<char> {
    "\n\t"@ + e.0 + (if e.1 > 1 {
        "\n\t... (repeated "@ + ascii_text(nat_digits((e.1 - 1) as nat)) + " times)"@
    } else {
        Seq::empty()
    })
}

/// The collapsed lines, each rendered.
pub open spec fn entries_text(es: Seq<(Seq<char>, nat)>) -> Seq<char>
    decreases es.len(),
{
    if es.len() == 0 {
        Seq::empty()
    } else {
        entries_text(es.drop_last()) + entry_text(es.last())
    }
}

/// The traceback of a call stack (outermost frame first): empty for an
/// empty stack; else `stack traceback:` and the frames innermost first,
/// runs of equal lines collapsed, and when more than twenty lines remain,
/// only the first ten and last ten with a count of those left out.
pub open spec fn traceback_text(stack: Seq<FrameInfo>) -> Seq<char> {
    if stack.len() == 0 {
        Seq::empty()
    } else {
        let c = collapse(frame_lines(stack));
        "stack traceback:"@ + if c.len() <= 20 {
            entries_text(c)
        } else {
            entries_text(c.take(10)) + "\n\t... ("@ + ascii_text(nat_digits((c.len() - 20) as nat))
                + " frames omitted)"@ + entries_text(c.skip(c.len() - 10))
        }
    }
}

/// The collapsed lines as two vectors.
pub open spec fn matches_collapsed(lines: Seq<String>, counts: Seq<usize>, c: Seq<(Seq<char>, nat)>) -> bool {
    &&& lines.len() == c.len()
    &&& counts.len() == c.len()
    &&& forall|k: int| 0 <= k < c.len() ==> (#[trigger] lines[k])@ == c[k].0 && counts[k] as nat == c[k].1
}

proof fn lemma_matches_at(lines: Seq<String>, counts: Seq<usize>, c: Seq<(Seq<char>, nat)>, k: int)
    requires
        matches_collapsed(lines, counts, c),
        0 <= k < c.len(),
    ensures
        lines[k]@ == c[k].0,
        counts[k] as nat == c[k].1,
{
    assert(lines[k]@ == c[k].0);
}

proof fn lemma_collapse_total(lines: Seq<Seq<char>>)
    ensures
        forall|k: int| 0 <= k < collapse(lines).len() ==> 1 <= #[trigger] collapse(lines)[k].1 <= lines.len(),
        collapse(lines).len() <= lines.len(),
    decreases lines.len(),
{
    if lines.len() > 0 {
        lemma_collapse_total(lines.drop_last());
    }
}

/// Append one collapsed line.
fn push_entry(out: &mut String, line: &String, count: usize)
    requires
        count >= 1,
    ensures
        final(out)@ == old(out)@ + entry_text((line@, count as nat)),
{
    out.append("\n\t");
    out.append(line.as_str());
    if count > 1 {
        out.append("\n\t... (repeated ");
        append_digits(out, (count - 1) as u64);
        out.append(" times)");
    }
    assert(out@ =~= old(out)@ + entry_text((line@, count as nat)));
}

/// Append the collapsed lines `a..b`.
fn push_entries(out: &mut String, lines: &Vec<String>, counts: &Vec<usize>, a: usize, b: usize, Ghost(c): Ghost<Seq<(Seq<char>, nat)>>)
    requires
        a <= b <= c.len(),
        matches_collapsed(lines@, counts@, c),
        forall|k: int| 0 <= k < c.len() ==> 1 <= #[trigger] c[k].1,
    ensures
        final(out)@ == old(out)@ + entries_text(c.subrange(a as int, b as int)),
{
    let mut k = a;
    while k < b
        invariant
            a <= k <= b <= c.len(),
            matches_collapsed(lines@, counts@, c),
            forall|q: int| 0 <= q < c.len() ==> 1 <= #[trigger] c[q].1,
            out@ == old(out)@ + entries_text(c.subrange(a as int, k as int)),
        decreases b - k,
    {
        assert(lines@[k as int]@ == c[k as int].0);
        push_entry(out, &lines[k], counts[k]);
        proof {
            assert(c.subrange(a as int, k + 1).drop_last() =~= c.subrange(a as int, k as int));
            assert(c.subrange(a as int, k + 1).last() == c[k as int]);
        }
        k = k + 1;
    }
}

/// The stack traceback of a call stack (outermost frame first).
pub fn format_traceback(call_stack: &[FrameInfo]) -> (r: String)
    ensures
        r@ == traceback_text(call_stack@),
{
    let n = call_stack.len();
    if n == 0 {
        return String::new();
    }
    let ghost fl = frame_lines(call_stack@);
    let mut lines: Vec<String> = Vec::new();
    let mut counts: Vec<usize> = Vec::new();
    let mut i: usize = 0;
    while i < n
        invariant
            n == call_stack@.len(),
            fl == frame_lines(call_stack@),
            i <= n,
            matches_collapsed(lines@, counts@, collapse(fl.take(i as int))),
            forall|k: int| 0 <= k < counts@.len() ==> #[trigger] counts@[k] <= i,
        decreases n - i,
    {
        let line = format_frame(&call_stack[n - 1 - i]);
        let ghost c0 = collapse(fl.take(i as int));
        let ghost c1 = collapse(fl.take(i + 1));
        proof {
            assert(fl.take(i + 1).drop_last() =~= fl.take(i as int));
            assert(fl.take(i + 1).last() == line@);
            assert(c1 == (if c0.len() > 0 && c0.last().0 == line@ {
                c0.update(c0.len() - 1, (line@, c0.last().1 + 1))
            } else {
                c0.push((line@, 1))
            }));
        }
        let m = lines.len();
        let ghost l0 = lines@;
        let ghost n0 = counts@;
        if m > 0 && lines[m - 1] == line {
            let c = counts[m - 1];
            counts.set(m - 1, c + 1);
            proof {
                assert(c0.last().0 == line@);
                assert forall|k: int| 0 <= k < c1.len() implies (#[trigger] lines@[k])@ == c1[k].0
                    && counts@[k] as nat == c1[k].1 by {
                    lemma_matches_at(l0, n0, c0, k);
                    assert(lines@[k] == l0[k]);
                    if k < m - 1 {
                        assert(c1[k] == c0[k]);
                        assert(counts@[k] == n0[k]);
                    } else {
                        assert(counts@[k] == n0[k] + 1);
                    }
                }
            }
        } else {
            lines.push(line);
            counts.push(1);
            proof {
                assert(!(c0.len() > 0 && c0.last().0 == line@));
                assert forall|k: int| 0 <= k < c1.len() implies (#[trigger] lines@[k])@ == c1[k].0
                    && counts@[k] as nat == c1[k].1 by {
                    if k < m {
                        lemma_matches_at(l0, n0, c0, k);
                        assert(c1[k] == c0[k]);
                        assert(lines@[k] == l0[k] && counts@[k] == n0[k]);
                    }
                }
            }
        }
        i = i + 1;
    }
    assert(fl.take(n as int) =~= fl);
    let ghost c = collapse(fl);
    proof {
        lemma_collapse_total(fl);
    }
    let total = lines.len();
    let mut out = String::from_str("stack traceback:");
    if total <= 20 {
        push_entries(&mut out, &lines, &counts, 0, total, Ghost(c));
        assert(c.subrange(0, total as int) =~= c);
    } else {
        push_entries(&mut out, &lines, &counts, 0, 10, Ghost(c));
        out.append("\n\t... (");
        append_digits(&mut out, (total - 20) as u64);
        out.append(" frames omitted)");
        push_entries(&mut out, &lines, &counts, total - 10, total, Ghost(c));
        assert(c.subrange(0, 10) =~= c.take(10));
        assert(c.subrange(total - 10, total as int) =~= c.skip(total - 10));
    }
    out
}

/// The total of the run lengths.
pub open spec fn run_total(c: Seq<(Seq<char>, nat)>) -> nat
    decreases c.len(),
{
    if c.len() == 0 {
        0
    } else {
        run_total(c.drop_last()) + c.last().1
    }
}

proof fn lemma_run_total_update(c: Seq<(Seq<char>, nat)>, l: Seq<char>)
    requires
        c.len() > 0,
    ensures
        run_total(c.update(c.len() - 1, (l, c.last().1 + 1))) == run_total(c) + 1,
{
    assert(c.update(c.len() - 1, (l, c.last().1 + 1)).drop_last() =~= c.drop_last());
}

/// Collapsing runs of equal lines loses no line: the run lengths add up
/// to the number of lines, and no two consecutive runs hold the same line.
pub proof fn law_collapse_keeps_every_frame(lines: Seq<Seq<char>>)
    ensures
        run_total(collapse(lines)) == lines.len(),
        forall|k: int| 0 <= k < collapse(lines).len() - 1 ==> #[trigger] collapse(lines)[k].0 != collapse(lines)[k + 1].0,
    decreases lines.len(),
{
    if lines.len() > 0 {
        law_collapse_keeps_every_frame(lines.drop_last());
        let c = collapse(lines.drop_last());
        if c.len() > 0 && c.last().0 == lines.last() {
            lemma_run_total_update(c, lines.last());
            let c1 = collapse(lines);
            assert forall|k: int| 0 <= k < c1.len() - 1 implies #[trigger] c1[k].0 != c1[k + 1].0 by {
                assert(c1[k] == c[k]);
                if k + 1 < c.len() - 1 {
                    assert(c1[k + 1] == c[k + 1]);
                } else {
                    assert(c1[k + 1].0 == c[k + 1].0);
                }
            }
        } else {
            let c1 = collapse(lines);
            assert(c1.drop_last() =~= c);
            assert forall|k: int| 0 <= k < c1.len() - 1 implies #[trigger] c1[k].0 != c1[k + 1].0 by {
                assert(c1[k] == c[k]);
                if k + 1 < c.len() {
                    assert(c1[k + 1] == c[k + 1]);
                }
            }
        }
    }
}

/// The index of the `k`-th newline (counting from 1) in `s[i..e]`.
pub open spec fn kth_newline(s: Seq<u8>, i: int, e: int, k: nat) -> Option<int>
    decreases e - i,
{
    if i >= e || i < 0 || i >= s.len() {
        None
    } else if s[i] == 10 {
        if k <= 1 {
            Some(i)
        } else {
            kth_newline(s, i + 1, e, (k - 1) as nat)
        }
    } else {
        kth_newline(s, i + 1, e, k)
    }
}

/// The primary span of a runtime error: the span of the location, cut
/// before its third newline so that it covers at most three lines.
pub open spec fn primary_span_spec(s: Seq<u8>, offset: int, len: int) -> (int, int) {
    let (a, e) = span_spec(s, offset, len);
    match kth_newline(s, a, e, 3) {
        Some(p) => (a, p),
        None => (a, e),
    }
}

/// The primary span of a runtime error at a location of the source.
pub fn primary_span(source: &[u8], offset: u32, len: u32) -> (r: (usize, usize))
    requires
        offset <= source@.len(),
    ensures
        r.0 as int == primary_span_spec(source@, offset as int, len as int).0,
        r.1 as int == primary_span_spec(source@, offset as int, len as int).1,
{
    let (a, e) = annotation_span(source, offset, len);
    let mut i = a;
    let mut k: u64 = 3;
    while i < e
        invariant
            a <= i,
            e <= source@.len(),
            a as int == span_spec(source@, offset as int, len as int).0,
            e as int == span_spec(source@, offset as int, len as int).1,
            1 <= k <= 3,
            kth_newline(source@, i as int, e as int, k as nat) == kth_newline(source@, a as int, e as int, 3),
        decreases e - i,
    {
        if source[i] == 10 {
            if k <= 1 {
                return (a, i);
            }
            k = k - 1;
        }
        i = i + 1;
    }
    (a, e)
}

/// An annotation under a source snippet: its byte span and label.
#[derive(Debug)]
pub struct Annotation {
    pub start: usize,
    pub end: usize,
    pub label: String,
}

/// The context annotations of a runtime error about a variable: where it
/// was defined (unless that is where the error is) and where it was last
/// assigned (unless that is where the error is or where it was defined).
pub open spec fn context_spec(s: Seq<u8>, primary_start: int, def: Option<(u32, u32)>, implicit_self: bool, assign: Option<(u32, u32)>) -> Seq<(int, int, Seq<char>)> {
    let d = match def {
        Some((o, l)) => if o as int != primary_start {
            seq![
                (
                    span_spec(s, o as int, l as int).0,
                    span_spec(s, o as int, l as int).1,
                    if implicit_self {
                        "self implicitly defined here by `:` function syntax"@
                    } else {
                        "defined here"@
                    },
                ),
            ]
        } else {
            Seq::empty()
        },
        None => Seq::empty(),
    };
    let a = match assign {
        Some((o, l)) => if o as int != primary_start && (match def {
            Some((dof, _)) => o != dof,
            None => true,
        }) {
            seq![(span_spec(s, o as int, l as int).0, span_spec(s, o as int, l as int).1, "last assigned here"@)]
        } else {
            Seq::empty()
        },
        None => Seq::empty(),
    };
    d + a
}

/// The spans and labels of the annotations.
pub open spec fn annotation_views(v: Seq<Annotation>) -> Seq<(int, int, Seq<char>)> {
    v.map_values(|x: Annotation| (x.start as int, x.end as int, x.label@))
}

/// The context annotations of a runtime error about a variable.
pub fn context_annotations(source: &[u8], primary_start: usize, def: Option<(u32, u32)>, implicit_self: bool, assign: Option<(u32, u32)>) -> (r: Vec<Annotation>)
    ensures
        annotation_views(r@) == context_spec(source@, primary_start as int, def, implicit_self, assign),
{
    let mut out: Vec<Annotation> = Vec::new();
    match def {
        Some((o, l)) => {
            if o as usize != primary_start {
                let (a, e) = annotation_span(source, o, l);
                let label = if implicit_self {
                    String::from_str("self implicitly defined here by `:` function syntax")
                } else {
                    String::from_str("defined here")
                };
                out.push(Annotation { start: a, end: e, label });
            }
        },
        None => {},
    }
    let ghost d = annotation_views(out@);
    match assign {
        Some((o, l)) => {
            let differs = match def {
                Some((dof, _)) => o != dof,
                None => true,
            };
            if o as usize != primary_start && differs {
                let (a, e) = annotation_span(source, o, l);
                out.push(Annotation { start: a, end: e, label: String::from_str("last assigned here") });
            }
        },
        None => {},
    }
    assert(annotation_views(out@) =~= context_spec(source@, primary_start as int, def, implicit_self, assign));
    out
}

/// What a runtime error names: an argument (by its 1-based position; 0
/// for none), a table key, or nothing in particular.
#[derive(Debug, Clone, Copy, PartialEq, Eq, Structural)]
pub enum ErrorSubject {
    Argument(usize),
    Key,
    Other,
}

/// Which sub-span of the innermost Lua frame's instruction an error
/// points at.
#[derive(Debug, Clone, Copy, PartialEq, Eq, Structural)]
pub enum SpanChoice {
    /// The argument span at this index.
    Argument(usize),
    /// The key span.
    Key,
    /// None: the instruction's own location is used.
    Instruction,
}

/// The sub-span chosen: the argument that the host attributed the error
/// to, when its span exists; else the argument that the error names;
/// else the key span for a key error; else none.
pub open spec fn span_choice_spec(has_spans: bool, arg_position: Option<usize>, n_args: nat, has_key: bool, subject: ErrorSubject) -> SpanChoice {
    if !has_spans {
        SpanChoice::Instruction
    } else if arg_position matches Some(p) && 1 <= p && p - 1 < n_args {
        SpanChoice::Argument((arg_position->0 - 1) as usize)
    } else {
        match subject {
            ErrorSubject::Argument(p) => if 1 <= p && p - 1 < n_args {
                SpanChoice::Argument((p - 1) as usize)
            } else {
                SpanChoice::Instruction
            },
            ErrorSubject::Key => if has_key {
                SpanChoice::Key
            } else {
                SpanChoice::Instruction
            },
            ErrorSubject::Other => SpanChoice::Instruction,
        }
    }
}

/// Choose the sub-span that an error points at.
pub fn choose_error_span(has_spans: bool, arg_position: Option<usize>, n_args: usize, has_key: bool, subject: ErrorSubject) -> (r: SpanChoice)
    ensures
        r == span_choice_spec(has_spans, arg_position, n_args as nat, has_key, subject),
{
    if !has_spans {
        return SpanChoice::Instruction;
    }
    match arg_position {
        Some(p) => {
            if p >= 1 && p - 1 < n_args {
                return SpanChoice::Argument(p - 1);
            }
        },
        None => {},
    }
    match subject {
        ErrorSubject::Argument(p) => {
            if p >= 1 && p - 1 < n_args {
                SpanChoice::Argument(p - 1)
            } else {
                SpanChoice::Instruction
            }
        },
        ErrorSubject::Key => {
            if has_key {
                SpanChoice::Key
            } else {
                SpanChoice::Instruction
            }
        },
        ErrorSubject::Other => SpanChoice::Instruction,
    }
}

/// A source location: the source's name, a byte offset and length, and
/// a line number.
#[derive(Debug)]
pub struct SourceLoc {
    pub source_name: String,
    pub byte_offset: u32,
    pub byte_len: u32,
    pub line: u32,
}

/// The severity of a compiler diagnostic.
#[derive(Debug, Clone, Copy, PartialEq, Eq, Structural)]
pub enum Severity {
    Error,
    Warning,
    Allow,
}

/// The indices of the diagnostics of severity `s`, in order.
pub open spec fn indices_of(sev: Seq<Severity>, s: Severity, n: int) -> Seq<int>
    decreases n,
{
    if n <= 0 {
        Seq::empty()
    } else if sev[n - 1] == s {
        indices_of(sev, s, n - 1).push(n - 1)
    } else {
        indices_of(sev, s, n - 1)
    }
}

/// The order in which warnings render: errors, then warnings, then
/// allowed diagnostics, each kind in the order given.
pub open spec fn warning_order_spec(sev: Seq<Severity>) -> Seq<int> {
    let n = sev.len() as int;
    indices_of(sev, Severity::Error, n) + indices_of(sev, Severity::Warning, n) + indices_of(
        sev,
        Severity::Allow,
        n,
    )
}

/// Append the indices of the diagnostics of severity `s`.
fn push_indices_of(out: &mut Vec<usize>, sev: &[Severity], s: Severity)
    ensures
        out_view(final(out)@) == out_view(old(out)@) + indices_of(sev@, s, sev@.len() as int),
{
    let n = sev.len();
    let mut i: usize = 0;
    while i < n
        invariant
            n == sev@.len(),
            i <= n,
            out_view(out@) == out_view(old(out)@) + indices_of(sev@, s, i as int),
        decreases n - i,
    {
        let ghost before = out@;
        if sev[i] == s {
            out.push(i);
            assert(out_view(out@) =~= out_view(before).push(i as int));
        } else {
            assert(out@ == before);
        }
        assert(indices_of(sev@, s, i + 1) == (if sev@[i as int] == s {
            indices_of(sev@, s, i as int).push(i as int)
        } else {
            indices_of(sev@, s, i as int)
        }));
        i = i + 1;
        assert(out_view(out@) =~= out_view(old(out)@) + indices_of(sev@, s, i as int));
    }
}

/// The indices as integers.
pub open spec fn out_view(v: Seq<usize>) -> Seq<int> {
    v.map_values(|x: usize| x as int)
}

/// The order in which diagnostics of these severities render.
pub fn warning_order(sev: &[Severity]) -> (r: Vec<usize>)
    ensures
        out_view(r@) == warning_order_spec(sev@),
{
    let mut out: Vec<usize> = Vec::new();
    assert(out_view(out@) =~= Seq::<int>::empty());
    push_indices_of(&mut out, sev, Severity::Error);
    push_indices_of(&mut out, sev, Severity::Warning);
    push_indices_of(&mut out, sev, Severity::Allow);
    assert(out_view(out@) =~= warning_order_spec(sev@));
    out
}

/// The secondary annotations rendered with a warning: those in the same
/// source as the primary location and pointing somewhere, each with its
/// span.
pub open spec fn secondary_spec(s: Seq<u8>, primary: Seq<char>, secs: Seq<(SourceLoc, String)>) -> Seq<(int, int, Seq<char>)>
    decreases secs.len(),
{
    if secs.len() == 0 {
        Seq::empty()
    } else {
        let prev = secondary_spec(s, primary, secs.drop_last());
        let (loc, label) = secs.last();
        if loc.source_name@ != primary || (loc.byte_offset == 0 && loc.line == 0) {
            prev
        } else {
            let sp = span_spec(s, loc.byte_offset as int, loc.byte_len as int);
            prev.push((sp.0, sp.1, label@))
        }
    }
}

/// The secondary annotations rendered with a warning.
pub fn secondary_annotations(source: &[u8], primary: &String, secs: &[(SourceLoc, String)]) -> (r: Vec<Annotation>)
    ensures
        annotation_views(r@) == secondary_spec(source@, primary@, secs@),
{
    let n = secs.len();
    let mut out: Vec<Annotation> = Vec::new();
    let mut i: usize = 0;
    while i < n
        invariant
            n == secs@.len(),
            i <= n,
            annotation_views(out@) == secondary_spec(source@, primary@, secs@.take(i as int)),
        decreases n - i,
    {
        let (loc, label) = &secs[i];
        proof {
            assert(secs@.take(i + 1).drop_last() =~= secs@.take(i as int));
        }
        if loc.source_name == *primary && !(loc.byte_offset == 0 && loc.line == 0) {
            let (a, e) = annotation_span(source, loc.byte_offset, loc.byte_len);
            out.push(Annotation { start: a, end: e, label: label.clone() });
        }
        i = i + 1;
        assert(annotation_views(out@) =~= secondary_spec(source@, primary@, secs@.take(i as int)));
    }
    assert(secs@.take(n as int) =~= secs@);
    out
}

} // verus!
