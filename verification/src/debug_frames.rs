//! What `debug.info`, `debug.getinfo` and `debug.getlocal` report of a
//! stack frame: its source, line, name and arity, the fields of a
//! `getinfo` table, and which local a `getlocal` index names.
//!
//! The interpreter hands each frame over as a `DebugFrame`: a Lua
//! function (its signature, where it executes when known, how many locals
//! are live) or a native one.
use vstd::prelude::*;
use crate::error::{LibError, is_arg_error};
use crate::format::push_char;
use crate::debug::parse_level;
use crate::io_lib::{lossy_text, utf8_lossy};

verus! {

/// The signature of a function as the compiler records it.
#[derive(Debug)]
pub struct FunctionSig {
    pub name: Vec<u8>,
    pub source: Vec<u8>,
    /// The parameter names (`None` for a parameter without one).
    pub params: Vec<Option<Vec<u8>>>,
    pub variadic: bool,
    pub line_defined: i64,
    pub last_line_defined: i64,
    pub num_upvalues: i64,
}

/// Where a frame executes: its source name and line.
#[derive(Debug)]
pub struct FrameLocation {
    pub source_name: Vec<u8>,
    pub line: i64,
}

/// A stack frame, or a function asked about without an activation
/// (then a Lua frame with no location and no locals).
#[derive(Debug)]
pub enum DebugFrame {
    Lua { sig: FunctionSig, location: Option<FrameLocation>, locals: usize },
    Native { name: Vec<u8> },
}

/// The frame at stack `level` (0 the innermost) of a stack of `len`
/// frames listed outermost first.
pub fn frame_at_level(len: usize, level: usize) -> (r: Option<usize>)
    ensures
        r == (if level < len {
            Some((len - 1 - level) as usize)
        } else {
            None::<usize>
        }),
{
    if level < len {
        Some(len - 1 - level)
    } else {
        None
    }
}

/// A source name as given, or marked as a file with `@` unless it
/// starts with `@` or `=` already.
pub open spec fn marked_source(s: Seq<u8>) -> Seq<u8> {
    if s.len() > 0 && (s[0] == 64 || s[0] == 61) {
        s
    } else {
        seq![64u8] + s
    }
}

/// The `s` value of a frame: the source of its location, else of its
/// signature (`=?` when empty), marked as a file; `=[Native]` for a
/// native frame.
pub open spec fn frame_source_spec(f: &DebugFrame) -> Seq<u8> {
    match f {
        DebugFrame::Lua { sig, location, .. } => match location {
            Some(loc) => marked_source(loc.source_name@),
            None => if sig.source@.len() == 0 {
                seq![61u8, 63u8]
            } else {
                marked_source(sig.source@)
            },
        },
        DebugFrame::Native { .. } => seq![61u8, 91u8, 78u8, 97u8, 116u8, 105u8, 118u8, 101u8, 93u8],
    }
}

fn marked(s: &[u8]) -> (r: Vec<u8>)
    ensures
        r@ == marked_source(s@),
{
    let n = s.len();
    if n > 0 && (s[0] == 64 || s[0] == 61) {
        let r = crate::byte_str::copy_range(s, 0, n);
        assert(s@.subrange(0, n as int) =~= s@);
        r
    } else {
        let mut r: Vec<u8> = vec![64u8];
        crate::byte_str::append_all(&mut r, s);
        r
    }
}

/// The `s` value of a frame (see `frame_source_spec`).
pub fn frame_source(f: &DebugFrame) -> (r: Vec<u8>)
    ensures
        r@ == frame_source_spec(f),
{
    match f {
        DebugFrame::Lua { sig, location, .. } => match location {
            Some(loc) => marked(loc.source_name.as_slice()),
            None => if sig.source.len() == 0 {
                let r: Vec<u8> = vec![61u8, 63u8];
                assert(r@ =~= seq![61u8, 63u8]);
                r
            } else {
                marked(sig.source.as_slice())
            },
        },
        DebugFrame::Native { .. } => {
            let r: Vec<u8> = vec![61u8, 91u8, 78u8, 97u8, 116u8, 105u8, 118u8, 101u8, 93u8];
            assert(r@ =~= seq![61u8, 91u8, 78u8, 97u8, 116u8, 105u8, 118u8, 101u8, 93u8]);
            r
        },
    }
}

/// The `l` value of a frame: the line it executes, or -1.
pub open spec fn frame_line_spec(f: &DebugFrame) -> i64 {
    match f {
        DebugFrame::Lua { location: Some(loc), .. } => loc.line,
        _ => -1i64,
    }
}

/// The `l` value of a frame (see `frame_line_spec`).
pub fn frame_current_line(f: &DebugFrame) -> (r: i64)
    ensures
        r == frame_line_spec(f),
{
    match f {
        DebugFrame::Lua { location: Some(loc), .. } => loc.line,
        _ => -1,
    }
}

/// The bytes of `<anonymous>`.
pub open spec fn anonymous_name() -> Seq<u8> {
    seq![60u8, 97u8, 110u8, 111u8, 110u8, 121u8, 109u8, 111u8, 117u8, 115u8, 62u8]
}

/// The `n` value of a frame: its function's name; none for an unnamed or
/// anonymous function, for the main chunk (named as its source), and for
/// a native function without a name.
pub open spec fn frame_name_spec(f: &DebugFrame) -> Option<Seq<u8>> {
    match f {
        DebugFrame::Lua { sig, .. } => if sig.name@.len() == 0 || sig.name@ == anonymous_name()
            || sig.name@ == sig.source@ {
            None
        } else {
            Some(sig.name@)
        },
        DebugFrame::Native { name } => if name@.len() == 0 {
            None
        } else {
            Some(name@)
        },
    }
}

fn same_bytes(a: &[u8], b: &[u8]) -> (r: bool)
    ensures
        r == (a@ == b@),
{
    if a.len() != b.len() {
        return false;
    }
    let r = crate::byte_str::range_eq(a, 0, b);
    proof {
        assert(a@.subrange(0, b@.len() as int) =~= a@);
    }
    r
}

fn copy_all(a: &[u8]) -> (r: Vec<u8>)
    ensures
        r@ == a@,
{
    let n = a.len();
    let r = crate::byte_str::copy_range(a, 0, n);
    assert(a@.subrange(0, n as int) =~= a@);
    r
}

/// The `n` value of a frame (see `frame_name_spec`).
pub fn frame_name(f: &DebugFrame) -> (r: Option<Vec<u8>>)
    ensures
        match r {
            Some(v) => frame_name_spec(f) == Some(v@),
            None => frame_name_spec(f) is None,
        },
{
    match f {
        DebugFrame::Lua { sig, .. } => {
            let anon: Vec<u8> = vec![60u8, 97u8, 110u8, 111u8, 110u8, 121u8, 109u8, 111u8, 117u8, 115u8, 62u8];
            assert(anon@ =~= anonymous_name());
            if sig.name.len() == 0 || same_bytes(sig.name.as_slice(), anon.as_slice()) || same_bytes(
                sig.name.as_slice(),
                sig.source.as_slice(),
            ) {
                None
            } else {
                Some(copy_all(sig.name.as_slice()))
            }
        },
        DebugFrame::Native { name } => if name.len() == 0 {
            None
        } else {
            Some(copy_all(name.as_slice()))
        },
    }
}

/// The `a` values of a frame: the number of parameters and whether it is
/// variadic (0 and true for a native frame).
pub open spec fn frame_arity_spec(f: &DebugFrame) -> (int, bool) {
    match f {
        DebugFrame::Lua { sig, .. } => (sig.params@.len() as int, sig.variadic),
        DebugFrame::Native { .. } => (0, true),
    }
}

/// The `a` values of a frame (see `frame_arity_spec`).
pub fn frame_arity(f: &DebugFrame) -> (r: (i64, bool))
    requires
        match f {
            DebugFrame::Lua { sig, .. } => sig.params@.len() <= i64::MAX,
            _ => true,
        },
    ensures
        (r.0 as int, r.1) == frame_arity_spec(f),
{
    match f {
        DebugFrame::Lua { sig, .. } => (sig.params.len() as i64, sig.variadic),
        DebugFrame::Native { .. } => (0, true),
    }
}

/// The main chunk: a Lua frame whose function is named as its source.
pub open spec fn is_main_spec(f: &DebugFrame) -> bool {
    match f {
        DebugFrame::Lua { sig, .. } => sig.name@ == sig.source@,
        DebugFrame::Native { .. } => false,
    }
}

/// Whether the frame is the main chunk (see `is_main_spec`).
pub fn is_main(f: &DebugFrame) -> (r: bool)
    ensures
        r == is_main_spec(f),
{
    match f {
        DebugFrame::Lua { sig, .. } => same_bytes(sig.name.as_slice(), sig.source.as_slice()),
        DebugFrame::Native { .. } => false,
    }
}

/// A value that `debug.info` returns.
#[derive(Debug, PartialEq, Eq)]
pub enum InfoValue {
    Nil,
    Int(i64),
    Bool(bool),
    Str(Vec<u8>),
}

/// A value of `debug.info`, with its string as bytes.
pub enum InfoItem {
    Nil,
    Int(int),
    Bool(bool),
    Str(Seq<u8>),
}

impl View for InfoValue {
    type V = InfoItem;

    open spec fn view(&self) -> InfoItem {
        match self {
            InfoValue::Nil => InfoItem::Nil,
            InfoValue::Int(n) => InfoItem::Int(*n as int),
            InfoValue::Bool(b) => InfoItem::Bool(*b),
            InfoValue::Str(s) => InfoItem::Str(s@),
        }
    }
}

/// The options that `debug.info` knows.
pub open spec fn is_info_option(c: char) -> bool {
    c == 's' || c == 'l' || c == 'n' || c == 'a' || c == 'f'
}

/// The values of one option of `debug.info`: `s` the source, `l` the
/// line, `n` the name, `a` the arity (two values), `f` nil.
pub open spec fn option_values(f: &DebugFrame, c: char) -> Seq<InfoItem> {
    if c == 's' {
        seq![InfoItem::Str(frame_source_spec(f))]
    } else if c == 'l' {
        seq![InfoItem::Int(frame_line_spec(f) as int)]
    } else if c == 'n' {
        match frame_name_spec(f) {
            Some(n) => seq![InfoItem::Str(n)],
            None => seq![InfoItem::Nil],
        }
    } else if c == 'a' {
        seq![InfoItem::Int(frame_arity_spec(f).0), InfoItem::Bool(frame_arity_spec(f).1)]
    } else {
        seq![InfoItem::Nil]
    }
}

/// The values of `debug.info` for the options `opts` (from index `i`
/// on), or the first option it does not know.
pub open spec fn info_spec(f: &DebugFrame, opts: Seq<char>, i: int) -> Result<Seq<InfoItem>, char>
    decreases opts.len() - i,
{
    if i < 0 || i >= opts.len() {
        Ok(Seq::empty())
    } else if !is_info_option(opts[i]) {
        Err(opts[i])
    } else {
        match info_spec(f, opts, i + 1) {
            Ok(rest) => Ok(option_values(f, opts[i]) + rest),
            Err(c) => Err(c),
        }
    }
}

/// The message for an unknown option `c`.
pub open spec fn invalid_option_text(c: char) -> Seq<char> {
    "invalid option '"@.push(c) + "'"@
}

fn invalid_option(function: &str, c: char) -> (e: LibError)
    ensures
        is_arg_error(e, 2, function@, invalid_option_text(c)),
{
    let mut m = String::from_str("invalid option '");
    push_char(&mut m, c);
    m.append("'");
    LibError::ArgError { position: 2, function: String::from_str(function), msg: m, hints: Vec::new() }
}

/// The views of values of `debug.info`.
pub open spec fn items_view(v: Seq<InfoValue>) -> Seq<InfoItem> {
    v.map_values(|x: InfoValue| x@)
}

/// `debug.info(frame, options)`: one value per option character (two for
/// `a`), in order; an unknown option is an argument error 2 of `info`.
pub fn info(f: &DebugFrame, options: &str) -> (r: Result<Vec<InfoValue>, LibError>)
    requires
        match f {
            DebugFrame::Lua { sig, .. } => sig.params@.len() <= i64::MAX,
            _ => true,
        },
    ensures
        match info_spec(f, options@, 0) {
            Ok(items) => r matches Ok(v) && items_view(v@) == items,
            Err(c) => r matches Err(e) && is_arg_error(e, 2, "info"@, invalid_option_text(c)),
        },
{
    let n = options.unicode_len();
    let mut out: Vec<InfoValue> = Vec::new();
    let mut i: usize = 0;
    while i < n
        invariant
            n == options@.len(),
            i <= n,
            match f {
                DebugFrame::Lua { sig, .. } => sig.params@.len() <= i64::MAX,
                _ => true,
            },
            info_spec(f, options@, 0) == match info_spec(f, options@, i as int) {
                Ok(rest) => Ok(items_view(out@) + rest),
                Err(c) => Err::<Seq<InfoItem>, char>(c),
            },
        decreases n - i,
    {
        let c = options.get_char(i);
        let ghost before = items_view(out@);
        if c == 's' {
            out.push(InfoValue::Str(frame_source(f)));
        } else if c == 'l' {
            out.push(InfoValue::Int(frame_current_line(f)));
        } else if c == 'n' {
            match frame_name(f) {
                Some(v) => out.push(InfoValue::Str(v)),
                None => out.push(InfoValue::Nil),
            }
        } else if c == 'a' {
            let (k, v) = frame_arity(f);
            out.push(InfoValue::Int(k));
            out.push(InfoValue::Bool(v));
        } else if c == 'f' {
            out.push(InfoValue::Nil);
        } else {
            return Err(invalid_option("info", c));
        }
        assert(items_view(out@) =~= before + option_values(f, c));
        proof {
            let r = info_spec(f, options@, i + 1);
            if let Ok(rest) = r {
                assert(items_view(out@) + rest =~= before + (option_values(f, c) + rest));
            }
        }
        i = i + 1;
    }
    assert(items_view(out@) + Seq::<InfoItem>::empty() =~= items_view(out@));
    Ok(out)
}

/// The fields of a `debug.getinfo` table; an absent field is left out of
/// the table.
#[derive(Debug)]
pub struct GetInfo {
    pub name: Option<Vec<u8>>,
    pub namewhat: Option<Vec<u8>>,
    pub source: Option<Vec<u8>>,
    pub short_src: Option<Vec<u8>>,
    pub linedefined: Option<i64>,
    pub lastlinedefined: Option<i64>,
    pub what: Option<Vec<u8>>,
    pub currentline: Option<i64>,
    pub istailcall: Option<bool>,
    pub nups: Option<i64>,
    pub nparams: Option<i64>,
    pub isvararg: Option<bool>,
    /// Whether `activelines` is there (as an empty table).
    pub activelines: bool,
}

/// The field groups that `debug.getinfo` knows.
pub open spec fn is_getinfo_option(c: char) -> bool {
    c == 'n' || c == 'S' || c == 'l' || c == 't' || c == 'u' || c == 'f' || c == 'L'
}

/// The first option of `what` that `debug.getinfo` does not know.
pub open spec fn first_unknown(what: Seq<char>, i: int) -> Option<char>
    decreases what.len() - i,
{
    if i < 0 || i >= what.len() {
        None
    } else if !is_getinfo_option(what[i]) {
        Some(what[i])
    } else {
        first_unknown(what, i + 1)
    }
}

/// The bytes of the `what` field: `main` for the main chunk, `Lua`,
/// `Native`.
pub open spec fn what_spec(f: &DebugFrame) -> Seq<u8> {
    match f {
        DebugFrame::Lua { .. } => if is_main_spec(f) {
            seq![109u8, 97u8, 105u8, 110u8]
        } else {
            seq![76u8, 117u8, 97u8]
        },
        DebugFrame::Native { .. } => seq![78u8, 97u8, 116u8, 105u8, 118u8, 101u8],
    }
}

/// The optional bytes of an optional vector.
pub open spec fn opt_bytes(v: Option<Vec<u8>>) -> Option<Seq<u8>> {
    match v {
        Some(b) => Some(b@),
        None => None,
    }
}

/// The `getinfo` table has exactly the groups of `what`: `n` name and
/// namewhat (empty), `S` source, `short_src`, the lines defined and
/// `what`, `l` the current line, `t` istailcall (false), `u` the
/// upvalue and parameter counts and variadic flag, `L` an empty
/// `activelines`; `f` adds nothing.
pub open spec fn getinfo_fields(g: GetInfo, f: &DebugFrame, what: Seq<char>, short_src: Seq<u8>) -> bool {
    let (ld, lld, nups, np, va) = match f {
        DebugFrame::Lua { sig, .. } => (
            sig.line_defined as int,
            sig.last_line_defined as int,
            sig.num_upvalues as int,
            sig.params@.len() as int,
            sig.variadic,
        ),
        DebugFrame::Native { .. } => (-1int, -1int, 0int, 0int, true),
    };
    &&& opt_bytes(g.name) == (if what.contains('n') {
        frame_name_spec(f)
    } else {
        None
    })
    &&& opt_bytes(g.namewhat) == (if what.contains('n') {
        Some(Seq::<u8>::empty())
    } else {
        None
    })
    &&& opt_bytes(g.source) == (if what.contains('S') {
        Some(frame_source_spec(f))
    } else {
        None
    })
    &&& opt_bytes(g.short_src) == (if what.contains('S') {
        Some(short_src)
    } else {
        None
    })
    &&& g.linedefined == (if what.contains('S') {
        Some(ld as i64)
    } else {
        None
    })
    &&& g.lastlinedefined == (if what.contains('S') {
        Some(lld as i64)
    } else {
        None
    })
    &&& opt_bytes(g.what) == (if what.contains('S') {
        Some(what_spec(f))
    } else {
        None
    })
    &&& g.currentline == (if what.contains('l') {
        Some(frame_line_spec(f))
    } else {
        None
    })
    &&& g.istailcall == (if what.contains('t') {
        Some(false)
    } else {
        None
    })
    &&& g.nups == (if what.contains('u') {
        Some(nups as i64)
    } else {
        None
    })
    &&& g.nparams == (if what.contains('u') {
        Some(np as i64)
    } else {
        None
    })
    &&& g.isvararg == (if what.contains('u') {
        Some(va)
    } else {
        None
    })
    &&& g.activelines == what.contains('L')
}


proof fn lemma_contains_push(s: Seq<char>, c: char, x: char)
    ensures
        s.push(c).contains(x) == (s.contains(x) || c == x),
{
    if s.contains(x) {
        let k = choose|k: int| 0 <= k < s.len() && s[k] == x;
        assert(s.push(c)[k] == x);
    }
    if c == x {
        assert(s.push(c)[s.len() as int] == x);
    }
    if s.push(c).contains(x) {
        let k = choose|k: int| 0 <= k < s.len() + 1 && s.push(c)[k] == x;
        if k < s.len() {
            assert(s[k] == x);
        }
    }
}

/// The groups of `what` seen up to index `i`, when all of them are
/// known.
struct Groups {
    n: bool,
    big_s: bool,
    l: bool,
    t: bool,
    u: bool,
    big_l: bool,
}

/// The groups that `debug.getinfo` fills: those asked for, or all but
/// `L`.
pub open spec fn getinfo_what(what: Option<&str>) -> Seq<char> {
    match what {
        Some(w) => w@,
        None => "flnStu"@,
    }
}

/// `debug.getinfo(frame, what)`: the fields of the groups of `what` (see
/// `getinfo_fields`); `short_src` is the display form of the frame's
/// source, as the interpreter shortens source names.  An unknown group is
/// an argument error 2 of `getinfo`.
pub fn getinfo(f: &DebugFrame, what: Option<&str>, short_src: &[u8]) -> (r: Result<GetInfo, LibError>)
    requires
        match f {
            DebugFrame::Lua { sig, .. } => sig.params@.len() <= i64::MAX,
            _ => true,
        },
    ensures
        match first_unknown(getinfo_what(what), 0) {
            Some(c) => r matches Err(e) && is_arg_error(e, 2, "getinfo"@, invalid_option_text(c)),
            None => r matches Ok(g) && getinfo_fields(g, f, getinfo_what(what), short_src@),
        },
{
    let w: &str = match what {
        Some(w) => w,
        None => "flnStu",
    };
    let n = w.unicode_len();
    let mut g = Groups { n: false, big_s: false, l: false, t: false, u: false, big_l: false };
    let mut i: usize = 0;
    while i < n
        invariant
            n == w@.len(),
            w@ == getinfo_what(what),
            i <= n,
            first_unknown(w@, 0) == first_unknown(w@, i as int),
            g.n == w@.subrange(0, i as int).contains('n'),
            g.big_s == w@.subrange(0, i as int).contains('S'),
            g.l == w@.subrange(0, i as int).contains('l'),
            g.t == w@.subrange(0, i as int).contains('t'),
            g.u == w@.subrange(0, i as int).contains('u'),
            g.big_l == w@.subrange(0, i as int).contains('L'),
        decreases n - i,
    {
        let c = w.get_char(i);
        if !(c == 'n' || c == 'S' || c == 'l' || c == 't' || c == 'u' || c == 'f' || c == 'L') {
            return Err(invalid_option("getinfo", c));
        }
        proof {
            let pre = w@.subrange(0, i as int);
            assert(w@.subrange(0, i + 1) =~= pre.push(c));
            lemma_contains_push(pre, c, 'n');
            lemma_contains_push(pre, c, 'S');
            lemma_contains_push(pre, c, 'l');
            lemma_contains_push(pre, c, 't');
            lemma_contains_push(pre, c, 'u');
            lemma_contains_push(pre, c, 'L');
        }
        if c == 'n' {
            g.n = true;
        } else if c == 'S' {
            g.big_s = true;
        } else if c == 'l' {
            g.l = true;
        } else if c == 't' {
            g.t = true;
        } else if c == 'u' {
            g.u = true;
        } else if c == 'L' {
            g.big_l = true;
        }
        i = i + 1;
    }
    assert(w@.subrange(0, n as int) =~= w@);
    let (ld, lld, nups, np, va) = match f {
        DebugFrame::Lua { sig, .. } => (
            sig.line_defined,
            sig.last_line_defined,
            sig.num_upvalues,
            sig.params.len() as i64,
            sig.variadic,
        ),
        DebugFrame::Native { .. } => (-1i64, -1i64, 0i64, 0i64, true),
    };
    let what_bytes: Vec<u8> = match f {
        DebugFrame::Lua { .. } => if is_main(f) {
            let w: Vec<u8> = vec![109u8, 97u8, 105u8, 110u8];
            assert(w@ =~= seq![109u8, 97u8, 105u8, 110u8]);
            w
        } else {
            let w: Vec<u8> = vec![76u8, 117u8, 97u8];
            assert(w@ =~= seq![76u8, 117u8, 97u8]);
            w
        },
        DebugFrame::Native { .. } => {
            let w: Vec<u8> = vec![78u8, 97u8, 116u8, 105u8, 118u8, 101u8];
            assert(w@ =~= seq![78u8, 97u8, 116u8, 105u8, 118u8, 101u8]);
            w
        },
    };
    let r = GetInfo {
        name: if g.n {
            frame_name(f)
        } else {
            None
        },
        namewhat: if g.n {
            Some(Vec::new())
        } else {
            None
        },
        source: if g.big_s {
            Some(frame_source(f))
        } else {
            None
        },
        short_src: if g.big_s {
            Some(copy_all(short_src))
        } else {
            None
        },
        linedefined: if g.big_s {
            Some(ld)
        } else {
            None
        },
        lastlinedefined: if g.big_s {
            Some(lld)
        } else {
            None
        },
        what: if g.big_s {
            Some(what_bytes)
        } else {
            None
        },
        currentline: if g.l {
            Some(frame_current_line(f))
        } else {
            None
        },
        istailcall: if g.t {
            Some(false)
        } else {
            None
        },
        nups: if g.u {
            Some(nups)
        } else {
            None
        },
        nparams: if g.u {
            Some(np)
        } else {
            None
        },
        isvararg: if g.u {
            Some(va)
        } else {
            None
        },
        activelines: g.big_l,
    };
    assert(opt_bytes(r.namewhat) == (if w@.contains('n') {
        Some(Seq::<u8>::empty())
    } else {
        None
    }));
    Ok(r)
}

/// What a `debug.getlocal` index names in a frame.
#[derive(Debug, PartialEq, Eq)]
pub enum LocalPick {
    /// The live local at that 0-based position.
    Local(usize),
    /// The parameter of that name (the frame has no live locals).
    Param(Vec<u8>),
    /// Nothing.
    NotFound,
}

/// `debug.getlocal(frame, idx)`: a positive index names the live local at
/// that position; in a frame with no live locals, the named parameter at
/// that position; else nothing.  Native frames have no locals.
pub fn local_pick(f: &DebugFrame, idx: i64) -> (r: LocalPick)
    ensures
        match f {
            DebugFrame::Lua { sig, locals, .. } => if idx >= 1 {
                let i = (idx - 1) as usize;
                if i < *locals {
                    r == LocalPick::Local(i)
                } else if *locals == 0 && i < sig.params@.len() && sig.params@[i as int] is Some {
                    r matches LocalPick::Param(nm) && nm@ == sig.params@[i as int]->0@
                } else {
                    r == LocalPick::NotFound
                }
            } else {
                r == LocalPick::NotFound
            },
            DebugFrame::Native { .. } => r == LocalPick::NotFound,
        },
{
    match f {
        DebugFrame::Lua { sig, locals, .. } => {
            if idx >= 1 {
                let i = (idx - 1) as usize;
                if i < *locals {
                    return LocalPick::Local(i);
                }
                if *locals == 0 && i < sig.params.len() {
                    match &sig.params[i] {
                        Some(nm) => return LocalPick::Param(copy_all(nm.as_slice())),
                        None => {},
                    }
                }
            }
            LocalPick::NotFound
        },
        DebugFrame::Native { .. } => LocalPick::NotFound,
    }
}

/// The 0-based upvalue a 1-based index `up` names, if positive.
pub fn upvalue_index(up: i64) -> (r: Option<usize>)
    ensures
        r == (if up < 1 {
            None::<usize>
        } else {
            Some((up - 1) as usize)
        }),
{
    if up < 1 {
        None
    } else {
        Some((up - 1) as usize)
    }
}


/// The first argument of `debug.traceback`: nil, a string, a number (the
/// level; a float passed here already truncated), or another value.
#[derive(Debug)]
pub enum TracebackFirst {
    Nil,
    Str(Vec<u8>),
    Number(i64),
    Other,
}

/// What `debug.traceback` does: hand back its first argument as it is,
/// or render the stack from a level, after an optional message.
#[derive(Debug)]
pub enum TracebackPlan {
    PassThrough,
    Render { message: Option<String>, level: usize },
}

/// The level an optional level argument gives: a number clamped at 0,
/// else 1.
pub open spec fn level_or_one(v: Option<i64>) -> usize {
    match v {
        Some(n) => if n < 0 {
            0
        } else {
            n as usize
        },
        None => 1,
    }
}

/// `debug.traceback([message [, level]])`: a string is the message
/// (invalid UTF-8 replaced) and the next argument the level; a number
/// alone is the level; nil means no message; any other value is handed
/// back untouched.  `second` is the next argument when it is a number.
pub fn traceback_plan(first: &TracebackFirst, second: Option<i64>) -> (r: TracebackPlan)
    ensures
        match first {
            TracebackFirst::Nil => r matches TracebackPlan::Render { message: None, level } && level
                == level_or_one(second),
            TracebackFirst::Str(s) => r matches TracebackPlan::Render { message: Some(m), level }
                && m@ == utf8_lossy(s@) && level == level_or_one(second),
            TracebackFirst::Number(n) => r matches TracebackPlan::Render { message: None, level }
                && level == level_or_one(Some(*n)),
            TracebackFirst::Other => r matches TracebackPlan::PassThrough,
        },
{
    match first {
        TracebackFirst::Nil => TracebackPlan::Render { message: None, level: parse_level(second, 1) },
        TracebackFirst::Str(s) => TracebackPlan::Render {
            message: Some(lossy_text(s.as_slice())),
            level: parse_level(second, 1),
        },
        TracebackFirst::Number(n) => TracebackPlan::Render {
            message: None,
            level: parse_level(Some(*n), 1),
        },
        TracebackFirst::Other => TracebackPlan::PassThrough,
    }
}

} // verus!
