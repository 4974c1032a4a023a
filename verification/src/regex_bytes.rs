//! Byte-oriented regular expressions (`regex.compile_bytes`), matched by
//! the `regex` crate: any haystack bytes, linear-time matching, no
//! backreferences or lookaround.
//!
//! What the engine computes (whether a pattern builds, where a search
//! matches, the spans of the groups, the group names) is named by the
//! uninterpreted functions below; the library's own logic (offsets,
//! walking from match to match, splitting, replacing) is verified against
//! those names.
use vstd::prelude::*;
use crate::byte_str::copy_range;
use crate::error::{LibError, bad_argument, is_bad_argument, is_bad_argument_got};
use crate::regex_lib::{
    CapturesData,
    CapturesView,
    LuaBytesCaptures,
    first_bad_byte,
    init_offset_spec,
    init_to_offset,
    invalid_utf8_text,
    names_view,
    require_utf8,
};
use crate::regex_search::{
    MatchCursor,
    Replacement,
    clamped_count,
    clamp_count,
    groups_within,
    pieces_view,
    replace_from,
    resume_after,
    span_in,
    split_from,
    split_limit,
    split_limit_spec,
    template_rep,
    whole_span,
};
use vstd::utf8::valid_utf8;
use bstr::ByteSlice;

verus! {

#[verifier::external_type_specification]
#[verifier::external_body]
pub struct ExBytesRegex(regex::bytes::Regex);

#[verifier::external_type_specification]
#[verifier::external_body]
pub struct ExRegexError(regex::Error);

/// The settings of `regex.compile_bytes`.  All flags default to off;
/// a limit that is absent keeps the engine's own.
#[derive(Debug, Clone, Copy)]
pub struct BytesRegexOpts {
    pub case_insensitive: bool,
    pub multi_line: bool,
    pub dot_matches_new_line: bool,
    pub ignore_whitespace: bool,
    pub unicode: bool,
    pub crlf: bool,
    pub octal: bool,
    pub size_limit: Option<i64>,
    pub dfa_size_limit: Option<i64>,
    pub nest_limit: Option<i64>,
}

/// The default settings: every flag off, no limit given.
pub open spec fn default_bytes_opts() -> BytesRegexOpts {
    BytesRegexOpts {
        case_insensitive: false,
        multi_line: false,
        dot_matches_new_line: false,
        ignore_whitespace: false,
        unicode: false,
        crlf: false,
        octal: false,
        size_limit: None,
        dfa_size_limit: None,
        nest_limit: None,
    }
}

impl Default for BytesRegexOpts {
    fn default() -> (r: BytesRegexOpts)
        ensures
            r == default_bytes_opts(),
    {
        BytesRegexOpts {
            case_insensitive: false,
            multi_line: false,
            dot_matches_new_line: false,
            ignore_whitespace: false,
            unicode: false,
            crlf: false,
            octal: false,
            size_limit: None,
            dfa_size_limit: None,
            nest_limit: None,
        }
    }
}

/// What a byte regex is built with: the flags, and the limits clamped at
/// 0 (the nesting limit taken as a `u32`).
#[derive(Debug, Clone, Copy)]
pub struct BytesBuild {
    pub case_insensitive: bool,
    pub multi_line: bool,
    pub dot_matches_new_line: bool,
    pub ignore_whitespace: bool,
    pub unicode: bool,
    pub crlf: bool,
    pub octal: bool,
    pub size_limit: Option<usize>,
    pub dfa_size_limit: Option<usize>,
    pub nest_limit: Option<u32>,
}

/// An optional limit clamped at 0.
pub open spec fn clamped_limit(v: Option<i64>) -> Option<usize> {
    match v {
        Some(n) => Some(clamped_count(n)),
        None => None,
    }
}

/// An optional nesting limit clamped at 0 and taken as a `u32`.
pub open spec fn clamped_nest(v: Option<i64>) -> Option<u32> {
    match v {
        Some(n) => Some(
            (if n < 0 {
                0
            } else {
                n
            }) as u32,
        ),
        None => None,
    }
}

/// The build of the settings `o`.
pub open spec fn bytes_build_of(o: BytesRegexOpts) -> BytesBuild {
    BytesBuild {
        case_insensitive: o.case_insensitive,
        multi_line: o.multi_line,
        dot_matches_new_line: o.dot_matches_new_line,
        ignore_whitespace: o.ignore_whitespace,
        unicode: o.unicode,
        crlf: o.crlf,
        octal: o.octal,
        size_limit: clamped_limit(o.size_limit),
        dfa_size_limit: clamped_limit(o.dfa_size_limit),
        nest_limit: clamped_nest(o.nest_limit),
    }
}

/// The settings given, or the defaults.
pub open spec fn bytes_opts_or_default(o: Option<BytesRegexOpts>) -> BytesRegexOpts {
    match o {
        Some(v) => v,
        None => default_bytes_opts(),
    }
}

fn clamp_limit(v: Option<i64>) -> (r: Option<usize>)
    ensures
        r == clamped_limit(v),
{
    match v {
        Some(n) => Some(clamp_count(n)),
        None => None,
    }
}

fn clamp_nest(v: Option<i64>) -> (r: Option<u32>)
    ensures
        r == clamped_nest(v),
{
    match v {
        Some(n) => {
            let c: i64 = if n < 0 {
                0
            } else {
                n
            };
            Some(c as u32)
        },
        None => None,
    }
}

/// The build of the settings `o` (see `bytes_build_of`).
pub fn bytes_build(o: &BytesRegexOpts) -> (r: BytesBuild)
    ensures
        r == bytes_build_of(*o),
{
    BytesBuild {
        case_insensitive: o.case_insensitive,
        multi_line: o.multi_line,
        dot_matches_new_line: o.dot_matches_new_line,
        ignore_whitespace: o.ignore_whitespace,
        unicode: o.unicode,
        crlf: o.crlf,
        octal: o.octal,
        size_limit: clamp_limit(o.size_limit),
        dfa_size_limit: clamp_limit(o.dfa_size_limit),
        nest_limit: clamp_nest(o.nest_limit),
    }
}

/// Whether `regex::bytes::RegexBuilder` builds the UTF-8 `pattern` with
/// `build`.
pub uninterp spec fn bytes_regex_builds(pattern: Seq<u8>, build: BytesBuild) -> bool;

/// `regex::bytes::Regex::find_at` of the regex built from `pattern` and
/// `build`: the span of the first match in `haystack` from `start`.
pub uninterp spec fn bytes_regex_find(
    pattern: Seq<u8>,
    build: BytesBuild,
    haystack: Seq<u8>,
    start: int,
) -> Option<(usize, usize)>;

/// `regex::bytes::Regex::captures_at` of the regex built from `pattern`
/// and `build`: the span of each group of the first match from `start`.
pub uninterp spec fn bytes_regex_captures(
    pattern: Seq<u8>,
    build: BytesBuild,
    haystack: Seq<u8>,
    start: int,
) -> Option<Seq<Option<(usize, usize)>>>;

/// `regex::bytes::Regex::is_match` of the regex built from `pattern` and
/// `build`.
pub uninterp spec fn bytes_regex_is_match(pattern: Seq<u8>, build: BytesBuild, haystack: Seq<u8>) -> bool;

/// `regex::bytes::Regex::capture_names` of the regex built from `pattern`
/// and `build`, the names as bytes.
pub uninterp spec fn bytes_regex_names(pattern: Seq<u8>, build: BytesBuild) -> Seq<Option<Seq<u8>>>;

/// `regex::bytes::Regex::captures_len` of the regex built from `pattern`
/// and `build`.
pub uninterp spec fn bytes_regex_group_count(pattern: Seq<u8>, build: BytesBuild) -> usize;

/// The searches of the regex built from `pattern` and `build` in `hay`,
/// by start position (they never fail at run time).
pub open spec fn bytes_find_oracle(pattern: Seq<u8>, build: BytesBuild, hay: Seq<u8>) -> spec_fn(
    int,
) -> Option<Option<(usize, usize)>> {
    |p: int| Some(bytes_regex_find(pattern, build, hay, p))
}

/// The captures searches of the regex built from `pattern` and `build`
/// in `hay`, by start position.
pub open spec fn bytes_captures_oracle(pattern: Seq<u8>, build: BytesBuild, hay: Seq<u8>) -> spec_fn(
    int,
) -> Option<Option<Seq<Option<(usize, usize)>>>> {
    |p: int| Some(bytes_regex_captures(pattern, build, hay, p))
}

/// A compiled byte regex (`regex.compile_bytes`): the regex, the pattern
/// and build it was made from, and the names of its groups.  The fields
/// are private and set only by `compile_bytes`, from the pattern and build
/// that the regex was made from.
pub struct LuaBytesRegex {
    inner: regex::bytes::Regex,
    pattern: Vec<u8>,
    build: BytesBuild,
    names: Vec<Option<Vec<u8>>>,
}

/// `regex::bytes::RegexBuilder`: build the UTF-8 `pattern` with the flags
/// and the limits of `build`.  What is claimed is only when it succeeds;
/// the regex itself is opaque.
#[verifier::external_body]
fn build_bytes_regex(pattern: &[u8], build: &BytesBuild) -> (r: Result<regex::bytes::Regex, regex::Error>)
    requires
        valid_utf8(pattern@),
    ensures
        r is Ok <==> bytes_regex_builds(pattern@, *build),
{
    let text = match pattern.to_str() { Ok(t) => t, Err(_) => "" };
    let mut b = regex::bytes::RegexBuilder::new(text);
    b.case_insensitive(build.case_insensitive).multi_line(build.multi_line);
    b.dot_matches_new_line(build.dot_matches_new_line).ignore_whitespace(build.ignore_whitespace);
    b.unicode(build.unicode).crlf(build.crlf).octal(build.octal);
    if let Some(n) = build.size_limit { b.size_limit(n); }
    if let Some(n) = build.dfa_size_limit { b.dfa_size_limit(n); }
    if let Some(n) = build.nest_limit { b.nest_limit(n); }
    b.build()
}

/// The message of a `regex::Error` (its `Display`).  Nothing is claimed
/// of the text.
#[verifier::external_body]
fn bytes_error_text(e: &regex::Error) -> String {
    e.to_string()
}

/// `regex::bytes::Regex::capture_names` of the regex of `re`, each name
/// as bytes: one entry per group, the first (the whole match) unnamed.
#[verifier::external_body]
fn bytes_capture_names(re: &LuaBytesRegex) -> (r: Vec<Option<Vec<u8>>>)
    ensures
        names_view(r@) == bytes_regex_names(re.pattern_view(), re.build_view()),
        r@.len() >= 1,
        r@[0] is None,
{
    re.inner.capture_names().map(|n| n.map(|s| s.as_bytes().to_vec())).collect()
}

/// `regex::bytes::Regex::captures_len` of the regex of `re`: the number
/// of groups, the whole match included, so at least 1.
#[verifier::external_body]
fn bytes_captures_len(re: &LuaBytesRegex) -> (r: usize)
    ensures
        r == bytes_regex_group_count(re.pattern_view(), re.build_view()),
        r >= 1,
{
    re.inner.captures_len()
}

/// `regex::bytes::Regex::is_match` of the regex of `re` on `hay`.
#[verifier::external_body]
fn bytes_is_match(re: &LuaBytesRegex, hay: &[u8]) -> (r: bool)
    ensures
        r == bytes_regex_is_match(re.pattern_view(), re.build_view(), hay@),
{
    re.inner.is_match(hay)
}

/// `regex::bytes::Regex::find_at` of the regex of `re`: the span of the
/// first match in `hay` at or after `start`.
#[verifier::external_body]
fn bytes_find_at(re: &LuaBytesRegex, hay: &[u8], start: usize) -> (r: Option<(usize, usize)>)
    requires
        start <= hay@.len(),
    ensures
        r == bytes_regex_find(re.pattern_view(), re.build_view(), hay@, start as int),
        r matches Some((s, e)) ==> span_in(s as int, e as int, start as int, hay@.len() as int),
{
    re.inner.find_at(hay, start).map(|m| (m.start(), m.end()))
}

/// `regex::bytes::Regex::captures_at` of the regex of `re`: the span of
/// each group of the first match at or after `start`; group 0, the whole
/// match, is always there.
#[verifier::external_body]
fn bytes_captures_at(re: &LuaBytesRegex, hay: &[u8], start: usize) -> (r: Option<Vec<Option<(usize, usize)>>>)
    requires
        start <= hay@.len(),
    ensures
        match r {
            Some(g) => {
                &&& bytes_regex_captures(re.pattern_view(), re.build_view(), hay@, start as int)
                    == Some(g@)
                &&& whole_span(g@) matches Some((s, e)) && span_in(
                    s as int,
                    e as int,
                    start as int,
                    hay@.len() as int,
                )
                &&& groups_within(g@, hay@.len() as int)
            },
            None => bytes_regex_captures(re.pattern_view(), re.build_view(), hay@, start as int)
                is None,
        },
{
    re.inner.captures_at(hay, start).map(|c| c.iter().map(|m| m.map(|m| (m.start(), m.end()))).collect())
}

/// A copy of a list of optional names.
pub fn copy_names(names: &Vec<Option<Vec<u8>>>, from: usize) -> (r: Vec<Option<Vec<u8>>>)
    requires
        from <= names@.len(),
    ensures
        names_view(r@) == names_view(names@).subrange(from as int, names@.len() as int),
{
    let n = names.len();
    let mut out: Vec<Option<Vec<u8>>> = Vec::new();
    let mut k = from;
    while k < n
        invariant
            from <= k <= n,
            n == names@.len(),
            names_view(out@) == names_view(names@).subrange(from as int, k as int),
        decreases n - k,
    {
        let item = match &names[k] {
            Some(v) => {
                let m = v.len();
                let c = copy_range(v.as_slice(), 0, m);
                assert(v@.subrange(0, m as int) =~= v@);
                Some(c)
            },
            None => None,
        };
        let ghost before = out@;
        out.push(item);
        assert(names_view(out@) =~= names_view(before).push(names_view(names@)[k as int]));
        assert(names_view(names@).subrange(from as int, k + 1) =~= names_view(names@).subrange(
            from as int,
            k as int,
        ).push(names_view(names@)[k as int]));
        k = k + 1;
    }
    out
}

/// Compile a pattern with the byte engine.  The pattern must be UTF-8;
/// the haystacks it is matched against may be any bytes.
pub fn compile_bytes(pattern: &[u8], opts: Option<BytesRegexOpts>) -> (r: Result<LuaBytesRegex, LibError>)
    ensures
        r is Ok <==> valid_utf8(pattern@) && bytes_regex_builds(
            pattern@,
            bytes_build_of(bytes_opts_or_default(opts)),
        ),
        r matches Ok(re) ==> {
            &&& re.wf()
            &&& re.pattern_view() == pattern@
            &&& re.build_view() == bytes_build_of(bytes_opts_or_default(opts))
        },
        r matches Err(e) ==> if valid_utf8(pattern@) {
            is_bad_argument(e, 1, "regex.compile_bytes"@, "a valid regex pattern"@)
        } else {
            exists|k: int|
                first_bad_byte(pattern@, k) && is_bad_argument_got(
                    e,
                    1,
                    "regex.compile_bytes"@,
                    "valid UTF-8 pattern"@,
                    invalid_utf8_text(k),
                )
        },
{
    match require_utf8(pattern, "regex.compile_bytes", 1, "valid UTF-8 pattern") {
        Err(e) => return Err(e),
        Ok(()) => {},
    }
    let o = match opts {
        Some(v) => v,
        None => BytesRegexOpts::default(),
    };
    let build = bytes_build(&o);
    match build_bytes_regex(pattern, &build) {
        Err(err) => {
            let got = bytes_error_text(&err);
            Err(bad_argument(1, "regex.compile_bytes", "a valid regex pattern", got))
        },
        Ok(inner) => {
            let n = pattern.len();
            let text = copy_range(pattern, 0, n);
            assert(pattern@.subrange(0, n as int) =~= pattern@);
            let mut re = LuaBytesRegex { inner, pattern: text, build, names: Vec::new() };
            let names = bytes_capture_names(&re);
            re.names = names;
            Ok(re)
        },
    }
}

impl LuaBytesRegex {
    /// The pattern the regex was built from.
    pub closed spec fn pattern_view(&self) -> Seq<u8> {
        self.pattern@
    }

    /// The build the regex was made with.
    pub closed spec fn build_view(&self) -> BytesBuild {
        self.build
    }

    /// The group names kept are those of the regex.
    pub closed spec fn wf(&self) -> bool {
        &&& names_view(self.names@) == bytes_regex_names(self.pattern@, self.build)
        &&& self.names@.len() >= 1
    }

    /// The names of the groups of the regex.
    pub open spec fn names_spec(&self) -> Seq<Option<Seq<u8>>> {
        bytes_regex_names(self.pattern_view(), self.build_view())
    }

    /// The pattern source as given to `regex.compile_bytes`.
    pub fn pattern(&self) -> (r: Vec<u8>)
        ensures
            r@ == self.pattern_view(),
    {
        let n = self.pattern.len();
        let r = copy_range(self.pattern.as_slice(), 0, n);
        assert(self.pattern@.subrange(0, n as int) =~= self.pattern@);
        r
    }

    /// Whether the regex matches anywhere in `hay`.
    pub fn is_match(&self, hay: &[u8]) -> (r: bool)
        ensures
            r == bytes_regex_is_match(self.pattern_view(), self.build_view(), hay@),
    {
        bytes_is_match(self, hay)
    }

    /// The first match at or after the 1-based offset `init` (default 1,
    /// negative from the end): its 1-based first and last positions and
    /// its text.
    pub fn find(&self, hay: &[u8], init: Option<i64>) -> (r: Option<(i64, i64, Vec<u8>)>)
        requires
            hay@.len() < isize::MAX,
        ensures
            match bytes_regex_find(
                self.pattern_view(),
                self.build_view(),
                hay@,
                init_offset_spec(init, hay@.len() as int),
            ) {
                Some((s, e)) => r matches Some((a, b, t)) && a == s + 1 && b == e && t@
                    == hay@.subrange(s as int, e as int),
                None => r is None,
            },
    {
        let off = init_to_offset(init, hay.len());
        match bytes_find_at(self, hay, off) {
            Some((s, e)) => Some(((s + 1) as i64, e as i64, copy_range(hay, s, e))),
            None => None,
        }
    }

    /// The captures of `groups`, a match in `hay`.
    fn captures_of(&self, hay: &[u8], groups: Vec<Option<(usize, usize)>>) -> (r: LuaBytesCaptures)
        requires
            self.wf(),
            hay@.len() < isize::MAX,
            groups_within(groups@, hay@.len() as int),
        ensures
            r.captures()@ == (CapturesView {
                haystack: hay@,
                groups: groups@,
                names: self.names_spec(),
            }),
    {
        let n = hay.len();
        let h = copy_range(hay, 0, n);
        assert(hay@.subrange(0, n as int) =~= hay@);
        let names = copy_names(&self.names, 0);
        assert(names_view(self.names@).subrange(0, self.names@.len() as int) =~= names_view(
            self.names@,
        ));
        let data = CapturesData { haystack: h, groups, names };
        assert(data@.wf());
        LuaBytesCaptures::new(data)
    }

    /// The captures of the first match at or after the 1-based offset
    /// `init` (default 1, negative from the end).
    pub fn captures(&self, hay: &[u8], init: Option<i64>) -> (r: Option<LuaBytesCaptures>)
        requires
            self.wf(),
            hay@.len() < isize::MAX,
        ensures
            match bytes_regex_captures(
                self.pattern_view(),
                self.build_view(),
                hay@,
                init_offset_spec(init, hay@.len() as int),
            ) {
                Some(g) => r matches Some(c) && c.captures()@ == (CapturesView {
                    haystack: hay@,
                    groups: g,
                    names: self.names_spec(),
                }),
                None => r is None,
            },
    {
        let off = init_to_offset(init, hay.len());
        match bytes_captures_at(self, hay, off) {
            Some(g) => Some(self.captures_of(hay, g)),
            None => None,
        }
    }

    /// The names of the explicit groups (group 0, the whole match, left
    /// out): `None` for an unnamed group.
    pub fn capture_names(&self) -> (r: Vec<Option<Vec<u8>>>)
        requires
            self.wf(),
        ensures
            names_view(r@) == self.names_spec().subrange(1, self.names_spec().len() as int),
    {
        copy_names(&self.names, 1)
    }

    /// The number of explicit groups (the whole match not counted).
    pub fn capture_count(&self) -> (r: i64)
        ensures
            bytes_regex_group_count(self.pattern_view(), self.build_view()) - 1 <= i64::MAX ==> r
                == bytes_regex_group_count(self.pattern_view(), self.build_view()) - 1,
            bytes_regex_group_count(self.pattern_view(), self.build_view()) - 1 > i64::MAX ==> r
                == i64::MAX,
    {
        let n = bytes_captures_len(self);
        if ((n - 1) as u64) > (i64::MAX as u64) {
            i64::MAX
        } else {
            (n - 1) as i64
        }
    }

    /// The next match of a walk over `hay`: none once the walk is past the
    /// end; else the first match from the walk's offset, as 1-based first
    /// and last positions and its text, after which the walk moves on.
    pub fn find_next(&self, cur: &mut MatchCursor, hay: &[u8]) -> (r: Option<(i64, i64, Vec<u8>)>)
        requires
            hay@.len() < isize::MAX,
        ensures
            old(cur).offset > hay@.len() ==> r is None && *final(cur) == *old(cur),
            old(cur).offset <= hay@.len() ==> match bytes_regex_find(
                self.pattern_view(),
                self.build_view(),
                hay@,
                old(cur).offset as int,
            ) {
                None => r is None && *final(cur) == *old(cur),
                Some((s, e)) => {
                    &&& r matches Some((a, b, t)) && a == s + 1 && b == e && t@ == hay@.subrange(
                        s as int,
                        e as int,
                    )
                    &&& (final(cur).offset, final(cur).last_end) == old(cur).after(s as int, e as int)
                },
            },
    {
        if cur.offset > hay.len() {
            return None;
        }
        match bytes_find_at(self, hay, cur.offset) {
            None => None,
            Some((s, e)) => {
                cur.advance(s, e);
                Some(((s + 1) as i64, e as i64, copy_range(hay, s, e)))
            },
        }
    }

    /// The captures of the next match of a walk over `hay` (see
    /// `find_next`); the walk moves on past the whole match.
    pub fn captures_next(&self, cur: &mut MatchCursor, hay: &[u8]) -> (r: Option<LuaBytesCaptures>)
        requires
            self.wf(),
            hay@.len() < isize::MAX,
        ensures
            old(cur).offset > hay@.len() ==> r is None && *final(cur) == *old(cur),
            old(cur).offset <= hay@.len() ==> match bytes_regex_captures(
                self.pattern_view(),
                self.build_view(),
                hay@,
                old(cur).offset as int,
            ) {
                None => r is None && *final(cur) == *old(cur),
                Some(g) => {
                    &&& r matches Some(c) && c.captures()@ == (CapturesView {
                        haystack: hay@,
                        groups: g,
                        names: self.names_spec(),
                    })
                    &&& whole_span(g) matches Some((s, e)) && (final(cur).offset, final(cur).last_end)
                        == old(cur).after(s as int, e as int)
                },
            },
    {
        if cur.offset > hay.len() {
            return None;
        }
        match bytes_captures_at(self, hay, cur.offset) {
            None => None,
            Some(g) => {
                let (s, e) = match g[0] {
                    Some(span) => span,
                    None => (0, 0),
                };
                assert(whole_span(g@) == g@[0]);
                cur.advance(s, e);
                Some(self.captures_of(hay, g))
            },
        }
    }

    /// Split `hay` on the matches: the pieces between them, the last
    /// holding the rest; a `limit` above 0 caps the number of pieces.
    pub fn split(&self, hay: &[u8], limit: Option<i64>) -> (r: Vec<Vec<u8>>)
        requires
            hay@.len() < isize::MAX,
        ensures
            split_from(
                bytes_find_oracle(self.pattern_view(), self.build_view(), hay@),
                hay@,
                split_limit_spec(limit) as nat,
                0,
                0,
                0,
            ) == Some(pieces_view(r@)),
    {
        let lim = split_limit(limit);
        let n = hay.len();
        let ghost f = bytes_find_oracle(self.pattern_view(), self.build_view(), hay@);
        let ghost target = split_from(f, hay@, lim as nat, 0, 0, 0);
        let mut out: Vec<Vec<u8>> = Vec::new();
        let mut last: usize = 0;
        let mut count: usize = 0;
        let mut offset: usize = 0;
        assert(pieces_view(out@) =~= Seq::<Seq<u8>>::empty());
        loop
            invariant_except_break
                offset <= n,
                target == match split_from(f, hay@, lim as nat, last as int, offset as int, count as nat) {
                    Some(rest) => Some(pieces_view(out@) + rest),
                    None => None,
                },
            invariant
                n == hay@.len(),
                n < isize::MAX,
                last <= offset,
                last <= n,
                count <= offset,
                f == bytes_find_oracle(self.pattern_view(), self.build_view(), hay@),
                target == split_from(f, hay@, lim as nat, 0, 0, 0),
            ensures
                target == Some(pieces_view(out@) + seq![hay@.subrange(last as int, n as int)]),
            decreases n + 1 - offset,
        {
            if lim != 0 && count + 1 >= lim {
                break;
            }
            let m = bytes_find_at(self, hay, offset);
            assert(f(offset as int) == Some(m));
            match m {
                None => break,
                Some((s, e)) => {
                    let ghost before = out@;
                    let piece = copy_range(hay, last, s);
                    out.push(piece);
                    assert(pieces_view(out@) =~= pieces_view(before).push(piece@));
                    last = e;
                    offset = if s == e {
                        e + 1
                    } else {
                        e
                    };
                    count = count + 1;
                    if offset > n {
                        assert(pieces_view(out@) + seq![hay@.subrange(last as int, n as int)]
                            =~= pieces_view(before) + seq![piece@, hay@.subrange(e as int, n as int)]);
                        break;
                    }
                    proof {
                        let r = split_from(f, hay@, lim as nat, last as int, offset as int, count as nat);
                        if let Some(rest) = r {
                            assert(pieces_view(out@) + rest =~= pieces_view(before) + (seq![piece@] + rest));
                        }
                    }
                },
            }
        }
        let ghost before = out@;
        let tail = copy_range(hay, last, n);
        out.push(tail);
        assert(pieces_view(out@) =~= pieces_view(before).push(tail@));
        out
    }

    /// One step of a replacement: unless the replacement is done or has
    /// reached its limit, find the next match from its offset and take it
    /// (the text before it goes to the output); its captures are returned
    /// for the caller to compute the replacement, which it then pushes.
    pub fn replace_next(&self, st: &mut Replacement, hay: &[u8]) -> (r: Option<LuaBytesCaptures>)
        requires
            self.wf(),
            old(st).wf(hay@.len() as int),
            hay@.len() < isize::MAX,
        ensures
            final(st).limit == old(st).limit,
            final(st).wf(hay@.len() as int),
            if old(st).done || old(st).count >= old(st).limit {
                &&& r is None
                &&& final(st).done
                &&& final(st).out@ == old(st).out@
                &&& final(st).last == old(st).last
            } else {
                match bytes_regex_captures(
                    self.pattern_view(),
                    self.build_view(),
                    hay@,
                    old(st).offset as int,
                ) {
                    None => {
                        &&& r is None
                        &&& final(st).done
                        &&& final(st).out@ == old(st).out@
                        &&& final(st).last == old(st).last
                    },
                    Some(g) => {
                        &&& r matches Some(c) && c.captures()@ == (CapturesView {
                            haystack: hay@,
                            groups: g,
                            names: self.names_spec(),
                        })
                        &&& whole_span(g) matches Some((s, e)) && {
                            &&& span_in(s as int, e as int, old(st).offset as int, hay@.len() as int)
                            &&& final(st).out@ == old(st).out@ + hay@.subrange(
                                old(st).last as int,
                                s as int,
                            )
                            &&& final(st).last == e
                            &&& final(st).offset as int == resume_after(s as int, e as int)
                            &&& final(st).count == old(st).count + 1
                            &&& final(st).done == (final(st).offset > hay@.len())
                        }
                    },
                }
            },
    {
        if st.done || st.count >= st.limit {
            st.stop();
            return None;
        }
        match bytes_captures_at(self, hay, st.offset) {
            None => {
                st.stop();
                None
            },
            Some(g) => {
                let (s, e) = match g[0] {
                    Some(span) => span,
                    None => (0, 0),
                };
                assert(whole_span(g@) == g@[0]);
                st.take_match(hay, s, e);
                Some(self.captures_of(hay, g))
            },
        }
    }

    /// Replace at most `limit` matches in `hay` by the expansion of the
    /// `$N` / `${name}` template against their captures.
    pub fn replace_template(&self, hay: &[u8], template: &[u8], limit: usize) -> (r: Vec<u8>)
        requires
            self.wf(),
            hay@.len() < isize::MAX,
        ensures
            replace_from(
                bytes_captures_oracle(self.pattern_view(), self.build_view(), hay@),
                template_rep(hay@, self.names_spec(), template@),
                hay@,
                limit as nat,
                0,
                0,
                0,
            ) == Some(r@),
    {
        let n = hay.len();
        let ghost c = bytes_captures_oracle(self.pattern_view(), self.build_view(), hay@);
        let ghost rep = template_rep(hay@, self.names_spec(), template@);
        let ghost target = replace_from(c, rep, hay@, limit as nat, 0, 0, 0);
        let mut st = Replacement::new(limit);
        assert(st.out@ =~= Seq::<u8>::empty());
        loop
            invariant
                n == hay@.len(),
                n < isize::MAX,
                self.wf(),
                st.wf(n as int),
                st.limit == limit,
                c == bytes_captures_oracle(self.pattern_view(), self.build_view(), hay@),
                rep == template_rep(hay@, self.names_spec(), template@),
                target == replace_from(c, rep, hay@, limit as nat, 0, 0, 0),
                !st.done ==> target == match replace_from(
                    c,
                    rep,
                    hay@,
                    limit as nat,
                    st.last as int,
                    st.offset as int,
                    st.count as nat,
                ) {
                    Some(rest) => Some(st.out@ + rest),
                    None => None,
                },
                st.done ==> target == Some(st.result(hay@)),
            ensures
                st.done,
                st.wf(n as int),
                target == Some(st.result(hay@)),
            decreases (if st.done {
                0
            } else {
                n + 2 - st.offset
            }),
        {
            let ghost old_st_out = st.out@;
            let ghost old_last = st.last;
            let ghost old_offset = st.offset;
            let ghost old_count = st.count;
            let ghost was_done = st.done;
            match self.replace_next(&mut st, hay) {
                None => {
                    proof {
                        if !was_done {
                            assert(st.out@ == old_st_out);
                            assert(st.last == old_last);
                            if old_count < limit {
                                assert(c(old_offset as int) == Some(
                                    bytes_regex_captures(
                                        self.pattern_view(),
                                        self.build_view(),
                                        hay@,
                                        old_offset as int,
                                    ),
                                ));
                            }
                            assert(replace_from(
                                c,
                                rep,
                                hay@,
                                limit as nat,
                                old_last as int,
                                old_offset as int,
                                old_count as nat,
                            ) == Some(hay@.subrange(old_last as int, n as int)));
                        }
                    }
                    break;
                },
                Some(cap) => {
                    let piece = cap.expand(template);
                    let ghost mid_out = st.out@;
                    st.push(piece.as_slice());
                    proof {
                        let g = bytes_regex_captures(
                            self.pattern_view(),
                            self.build_view(),
                            hay@,
                            old_offset as int,
                        )->0;
                        assert(c(old_offset as int) == Some(Some(g)));
                        assert(rep(g) == piece@);
                        let (s, e) = whole_span(g)->0;
                        assert(mid_out == old_st_out + hay@.subrange(old_last as int, s as int));
                        let head = hay@.subrange(old_last as int, s as int) + rep(g);
                        if st.done {
                            assert(st.result(hay@) =~= old_st_out + (head + hay@.subrange(
                                e as int,
                                n as int,
                            )));
                        } else {
                            let r = replace_from(
                                c,
                                rep,
                                hay@,
                                limit as nat,
                                st.last as int,
                                st.offset as int,
                                st.count as nat,
                            );
                            if let Some(rest) = r {
                                assert(st.out@ + rest =~= old_st_out + (head + rest));
                            }
                        }
                    }
                },
            }
        }
        st.finish(hay)
    }
}

} // verus!
