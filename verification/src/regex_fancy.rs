//! UTF-8 regular expressions (`regex.compile`), matched by the
//! `fancy-regex` crate: lookaround, backreferences and subroutines, on
//! haystacks that must be valid UTF-8.  A search can fail at run time
//! (for instance when it backtracks too far); the failure is reported as a
//! runtime error.
//!
//! What the engine computes is named by the uninterpreted functions below;
//! the library's own logic is verified against those names.
use vstd::prelude::*;
use crate::byte_str::copy_range;
use crate::error::{LibError, bad_argument, is_bad_argument, is_bad_argument_got, runtime_error};
use crate::regex_bytes::copy_names;
use crate::regex_lib::{
    CapturesData,
    CapturesView,
    LuaCaptures,
    first_bad_byte,
    init_offset_spec,
    init_to_offset,
    invalid_utf8_text,
    names_view,
    require_utf8,
    utf8_error_at,
};
use crate::regex_search::{
    MatchCursor,
    Replacement,
    clamped_count,
    clamp_count,
    groups_within,
    pieces_view,
    replace_from,
    resume_after,
    span_in,
    split_from,
    split_limit,
    split_limit_spec,
    template_rep,
    whole_span,
};
use vstd::utf8::valid_utf8;
use bstr::ByteSlice;

verus! {

#[verifier::external_type_specification]
#[verifier::external_body]
pub struct ExFancyRegex(fancy_regex::Regex);

#[verifier::external_type_specification]
#[verifier::external_body]
pub struct ExFancyError(fancy_regex::Error);

/// The settings of `regex.compile`.  Every flag but `unicode` defaults to
/// off; a limit that is absent keeps the engine's own.
#[derive(Debug, Clone, Copy)]
pub struct RegexOpts {
    pub case_insensitive: bool,
    pub multi_line: bool,
    pub dot_matches_new_line: bool,
    pub ignore_whitespace: bool,
    pub unicode: bool,
    pub crlf: bool,
    pub oniguruma: bool,
    pub verbose: bool,
    pub find_not_empty: bool,
    pub backtrack_limit: Option<i64>,
    pub delegate_size_limit: Option<i64>,
    pub delegate_dfa_size_limit: Option<i64>,
}

/// The default settings: `unicode` on, every other flag off, no limit
/// given.
pub open spec fn default_regex_opts() -> RegexOpts {
    RegexOpts {
        case_insensitive: false,
        multi_line: false,
        dot_matches_new_line: false,
        ignore_whitespace: false,
        unicode: true,
        crlf: false,
        oniguruma: false,
        verbose: false,
        find_not_empty: false,
        backtrack_limit: None,
        delegate_size_limit: None,
        delegate_dfa_size_limit: None,
    }
}

impl Default for RegexOpts {
    fn default() -> (r: RegexOpts)
        ensures
            r == default_regex_opts(),
    {
        RegexOpts {
            case_insensitive: false,
            multi_line: false,
            dot_matches_new_line: false,
            ignore_whitespace: false,
            unicode: true,
            crlf: false,
            oniguruma: false,
            verbose: false,
            find_not_empty: false,
            backtrack_limit: None,
            delegate_size_limit: None,
            delegate_dfa_size_limit: None,
        }
    }
}

/// What a UTF-8 regex is built with: the flags, and the limits clamped
/// at 0.
#[derive(Debug, Clone, Copy)]
pub struct FancyBuild {
    pub case_insensitive: bool,
    pub multi_line: bool,
    pub dot_matches_new_line: bool,
    pub ignore_whitespace: bool,
    pub unicode: bool,
    pub crlf: bool,
    pub oniguruma: bool,
    pub verbose: bool,
    pub find_not_empty: bool,
    pub backtrack_limit: Option<usize>,
    pub delegate_size_limit: Option<usize>,
    pub delegate_dfa_size_limit: Option<usize>,
}

/// An optional limit clamped at 0.
pub open spec fn clamped_opt(v: Option<i64>) -> Option<usize> {
    match v {
        Some(n) => Some(clamped_count(n)),
        None => None,
    }
}

/// The build of the settings `o`.
pub open spec fn fancy_build_of(o: RegexOpts) -> FancyBuild {
    FancyBuild {
        case_insensitive: o.case_insensitive,
        multi_line: o.multi_line,
        dot_matches_new_line: o.dot_matches_new_line,
        ignore_whitespace: o.ignore_whitespace,
        unicode: o.unicode,
        crlf: o.crlf,
        oniguruma: o.oniguruma,
        verbose: o.verbose,
        find_not_empty: o.find_not_empty,
        backtrack_limit: clamped_opt(o.backtrack_limit),
        delegate_size_limit: clamped_opt(o.delegate_size_limit),
        delegate_dfa_size_limit: clamped_opt(o.delegate_dfa_size_limit),
    }
}

/// The settings given, or the defaults.
pub open spec fn regex_opts_or_default(o: Option<RegexOpts>) -> RegexOpts {
    match o {
        Some(v) => v,
        None => default_regex_opts(),
    }
}

fn clamp_opt(v: Option<i64>) -> (r: Option<usize>)
    ensures
        r == clamped_opt(v),
{
    match v {
        Some(n) => Some(clamp_count(n)),
        None => None,
    }
}

/// The build of the settings `o` (see `fancy_build_of`).
pub fn fancy_build(o: &RegexOpts) -> (r: FancyBuild)
    ensures
        r == fancy_build_of(*o),
{
    FancyBuild {
        case_insensitive: o.case_insensitive,
        multi_line: o.multi_line,
        dot_matches_new_line: o.dot_matches_new_line,
        ignore_whitespace: o.ignore_whitespace,
        unicode: o.unicode,
        crlf: o.crlf,
        oniguruma: o.oniguruma,
        verbose: o.verbose,
        find_not_empty: o.find_not_empty,
        backtrack_limit: clamp_opt(o.backtrack_limit),
        delegate_size_limit: clamp_opt(o.delegate_size_limit),
        delegate_dfa_size_limit: clamp_opt(o.delegate_dfa_size_limit),
    }
}

/// Whether `fancy_regex::RegexBuilder` builds the UTF-8 `pattern` with
/// `build`.
pub uninterp spec fn fancy_regex_builds(pattern: Seq<u8>, build: FancyBuild) -> bool;

/// `fancy_regex::Regex::find_from_pos` of the regex built from `pattern`
/// and `build`, on the UTF-8 `haystack`: `None` when the search fails,
/// else the span of the first match from `pos`, if any.
pub uninterp spec fn fancy_regex_find(
    pattern: Seq<u8>,
    build: FancyBuild,
    haystack: Seq<u8>,
    pos: int,
) -> Option<Option<(usize, usize)>>;

/// `fancy_regex::Regex::captures_from_pos` of the regex built from
/// `pattern` and `build`: `None` when the search fails, else the span of
/// each group of the first match from `pos`, if any.
pub uninterp spec fn fancy_regex_captures(
    pattern: Seq<u8>,
    build: FancyBuild,
    haystack: Seq<u8>,
    pos: int,
) -> Option<Option<Seq<Option<(usize, usize)>>>>;

/// `fancy_regex::Regex::is_match` of the regex built from `pattern` and
/// `build`: `None` when the search fails.
pub uninterp spec fn fancy_regex_is_match(pattern: Seq<u8>, build: FancyBuild, haystack: Seq<u8>) -> Option<bool>;

/// `fancy_regex::Regex::capture_names` of the regex built from `pattern`
/// and `build`, the names as bytes.
pub uninterp spec fn fancy_regex_names(pattern: Seq<u8>, build: FancyBuild) -> Seq<Option<Seq<u8>>>;

/// `fancy_regex::Regex::captures_len` of the regex built from `pattern`
/// and `build`.
pub uninterp spec fn fancy_regex_group_count(pattern: Seq<u8>, build: FancyBuild) -> usize;

/// The searches of the regex built from `pattern` and `build` in `hay`,
/// by start position.
pub open spec fn fancy_find_oracle(pattern: Seq<u8>, build: FancyBuild, hay: Seq<u8>) -> spec_fn(
    int,
) -> Option<Option<(usize, usize)>> {
    |p: int| fancy_regex_find(pattern, build, hay, p)
}

/// The captures searches of the regex built from `pattern` and `build`
/// in `hay`, by start position.
pub open spec fn fancy_captures_oracle(pattern: Seq<u8>, build: FancyBuild, hay: Seq<u8>) -> spec_fn(
    int,
) -> Option<Option<Seq<Option<(usize, usize)>>>> {
    |p: int| fancy_regex_captures(pattern, build, hay, p)
}

/// The characters that a pattern escape puts a `\` before (besides `\`
/// itself): `. + * ? ( ) | [ ] { } ^ $ #`.
pub open spec fn is_special_byte(b: u8) -> bool {
    b == 46 || b == 43 || b == 42 || b == 63 || b == 40 || b == 41 || b == 124 || b == 91 || b
        == 93 || b == 123 || b == 125 || b == 94 || b == 36 || b == 35
}

/// Does `t` hold a `\` or a special character, that is anything that
/// the escape has to quote?
pub open spec fn needs_quoting(t: Seq<u8>) -> bool {
    exists|i: int| 0 <= i < t.len() && (t[i] == 92 || is_special_byte(#[trigger] t[i]))
}

/// The quoting of one byte: `\` doubled; newline, tab and carriage return
/// spelled `\n`, `\t`, `\r`; a special character after a `\`; any other
/// byte as it is.
pub open spec fn escape_byte(b: u8) -> Seq<u8> {
    if b == 92 {
        seq![92u8, 92u8]
    } else if b == 10 {
        seq![92u8, 110u8]
    } else if b == 9 {
        seq![92u8, 116u8]
    } else if b == 13 {
        seq![92u8, 114u8]
    } else if is_special_byte(b) {
        seq![92u8, b]
    } else {
        seq![b]
    }
}

/// The quoting of a text, byte by byte.
pub open spec fn quoted(t: Seq<u8>) -> Seq<u8>
    decreases t.len(),
{
    if t.len() == 0 {
        Seq::empty()
    } else {
        quoted(t.drop_last()) + escape_byte(t.last())
    }
}

/// The escape of a text: the text as it is where nothing in it needs
/// quoting (newlines, tabs and carriage returns included), else its
/// quoting.
pub open spec fn escaped(t: Seq<u8>) -> Seq<u8> {
    if needs_quoting(t) {
        quoted(t)
    } else {
        t
    }
}

/// `fancy_regex::escape` on the UTF-8 `text`: the text unchanged where it
/// holds no `\` and no special character; else a `\` before each such
/// character, with newline, tab and carriage return spelled `\n`, `\t`,
/// `\r`.
#[verifier::external_body]
fn escape_text(text: &[u8]) -> (r: Vec<u8>)
    requires
        valid_utf8(text@),
    ensures
        r@ == escaped(text@),
{
    match text.to_str() {
        Ok(s) => fancy_regex::escape(s).into_owned().into_bytes(),
        Err(_) => Vec::new(),
    }
}

/// Escape the metacharacters of `text`, so that as a pattern it matches
/// `text` literally (the same for both engines).
pub fn escape(text: &[u8]) -> (r: Result<Vec<u8>, LibError>)
    ensures
        r is Ok <==> valid_utf8(text@),
        r matches Ok(v) ==> v@ == escaped(text@),
        r matches Err(e) ==> exists|k: int|
            first_bad_byte(text@, k) && is_bad_argument_got(
                e,
                1,
                "regex.escape"@,
                "valid UTF-8 string"@,
                invalid_utf8_text(k),
            ),
{
    match require_utf8(text, "regex.escape", 1, "valid UTF-8 string") {
        Err(e) => Err(e),
        Ok(()) => Ok(escape_text(text)),
    }
}

/// A compiled UTF-8 regex (`regex.compile`): the regex, the pattern and
/// build it was made from, and the names of its groups.  The fields are
/// private and set only by `compile`, from the pattern and build that the
/// regex was made from.
pub struct LuaRegex {
    inner: fancy_regex::Regex,
    pattern: Vec<u8>,
    build: FancyBuild,
    names: Vec<Option<Vec<u8>>>,
}

/// `fancy_regex::RegexBuilder`: build the UTF-8 `pattern` with the flags
/// and the limits of `build`.  What is claimed is only when it succeeds;
/// the regex itself is opaque.
#[verifier::external_body]
fn build_fancy_regex(pattern: &[u8], build: &FancyBuild) -> (r: Result<fancy_regex::Regex, fancy_regex::Error>)
    requires
        valid_utf8(pattern@),
    ensures
        r is Ok <==> fancy_regex_builds(pattern@, *build),
{
    let text = match pattern.to_str() { Ok(t) => t, Err(_) => "" };
    let mut b = fancy_regex::RegexBuilder::new(text);
    b.case_insensitive(build.case_insensitive).multi_line(build.multi_line).crlf(build.crlf);
    b.dot_matches_new_line(build.dot_matches_new_line).ignore_whitespace(build.ignore_whitespace);
    b.unicode_mode(build.unicode).oniguruma_mode(build.oniguruma).verbose_mode(build.verbose);
    b.find_not_empty(build.find_not_empty);
    if let Some(n) = build.backtrack_limit { b.backtrack_limit(n); }
    if let Some(n) = build.delegate_size_limit { b.delegate_size_limit(n); }
    if let Some(n) = build.delegate_dfa_size_limit { b.delegate_dfa_size_limit(n); }
    b.build()
}

/// The message of a `fancy_regex::Error` (its `Display`).  Nothing is
/// claimed of the text.
#[verifier::external_body]
fn fancy_error_text(e: &fancy_regex::Error) -> String {
    e.to_string()
}

/// `fancy_regex::Regex::capture_names` of the regex of `re`, each name as
/// bytes: one entry per group (`captures_len` of them, so at least one),
/// the first, the whole match, unnamed.
#[verifier::external_body]
fn fancy_capture_names(re: &LuaRegex) -> (r: Vec<Option<Vec<u8>>>)
    ensures
        names_view(r@) == fancy_regex_names(re.pattern_view(), re.build_view()),
        r@.len() >= 1,
        r@[0] is None,
{
    re.inner.capture_names().map(|n| n.map(|s| s.as_bytes().to_vec())).collect()
}

/// `fancy_regex::Regex::captures_len` of the regex of `re`: the number of
/// groups, the whole match included, so at least 1.
#[verifier::external_body]
fn fancy_captures_len(re: &LuaRegex) -> (r: usize)
    ensures
        r == fancy_regex_group_count(re.pattern_view(), re.build_view()),
        r >= 1,
{
    re.inner.captures_len()
}

/// `fancy_regex::Regex::is_match` of the regex of `re` on the UTF-8
/// `hay`.
#[verifier::external_body]
fn fancy_is_match(re: &LuaRegex, hay: &[u8]) -> (r: Result<bool, fancy_regex::Error>)
    requires
        valid_utf8(hay@),
    ensures
        match r {
            Ok(b) => fancy_regex_is_match(re.pattern_view(), re.build_view(), hay@) == Some(b),
            Err(_) => fancy_regex_is_match(re.pattern_view(), re.build_view(), hay@) is None,
        },
{
    match hay.to_str() {
        Ok(s) => re.inner.is_match(s),
        Err(_) => Ok(false),
    }
}

/// `fancy_regex::Regex::find_from_pos` of the regex of `re`: the span of
/// the first match in the UTF-8 `hay` at or after `pos`.
#[verifier::external_body]
fn fancy_find_from(re: &LuaRegex, hay: &[u8], pos: usize) -> (r: Result<Option<(usize, usize)>, fancy_regex::Error>)
    requires
        valid_utf8(hay@),
        pos <= hay@.len(),
    ensures
        match r {
            Ok(m) => {
                &&& fancy_regex_find(re.pattern_view(), re.build_view(), hay@, pos as int) == Some(m)
                &&& m matches Some((s, e)) ==> span_in(s as int, e as int, pos as int, hay@.len() as int)
            },
            Err(_) => fancy_regex_find(re.pattern_view(), re.build_view(), hay@, pos as int) is None,
        },
{
    match hay.to_str() {
        Ok(s) => re.inner.find_from_pos(s, pos).map(|o| o.map(|m| (m.start(), m.end()))),
        Err(_) => Ok(None),
    }
}

/// `fancy_regex::Regex::captures_from_pos` of the regex of `re`: the span
/// of each group of the first match in the UTF-8 `hay` at or after `pos`;
/// group 0, the whole match, is always there.
#[verifier::external_body]
fn fancy_captures_from(re: &LuaRegex, hay: &[u8], pos: usize) -> (r: Result<
    Option<Vec<Option<(usize, usize)>>>,
    fancy_regex::Error,
>)
    requires
        valid_utf8(hay@),
        pos <= hay@.len(),
    ensures
        match r {
            Ok(Some(g)) => {
                &&& fancy_regex_captures(re.pattern_view(), re.build_view(), hay@, pos as int)
                    == Some(Some(g@))
                &&& whole_span(g@) matches Some((s, e)) && span_in(
                    s as int,
                    e as int,
                    pos as int,
                    hay@.len() as int,
                )
                &&& groups_within(g@, hay@.len() as int)
            },
            Ok(None) => fancy_regex_captures(re.pattern_view(), re.build_view(), hay@, pos as int)
                == Some(None::<Seq<Option<(usize, usize)>>>),
            Err(_) => fancy_regex_captures(re.pattern_view(), re.build_view(), hay@, pos as int)
                is None,
        },
{
    match hay.to_str() {
        Ok(s) => re.inner.captures_from_pos(s, pos).map(|o| {
            o.map(|c| c.iter().map(|m| m.map(|m| (m.start(), m.end()))).collect())
        }),
        Err(_) => Ok(None),
    }
}

/// The runtime error of a failed search.
fn search_failure(e: &fancy_regex::Error) -> (r: LibError)
    ensures
        r is Runtime,
{
    runtime_error(fancy_error_text(e))
}

/// Compile a pattern with the UTF-8 engine.
pub fn compile(pattern: &[u8], opts: Option<RegexOpts>) -> (r: Result<LuaRegex, LibError>)
    ensures
        r is Ok <==> valid_utf8(pattern@) && fancy_regex_builds(
            pattern@,
            fancy_build_of(regex_opts_or_default(opts)),
        ),
        r matches Ok(re) ==> {
            &&& re.wf()
            &&& re.pattern_view() == pattern@
            &&& re.build_view() == fancy_build_of(regex_opts_or_default(opts))
        },
        r matches Err(e) ==> if valid_utf8(pattern@) {
            is_bad_argument(e, 1, "regex.compile"@, "a valid regex pattern"@)
        } else {
            exists|k: int|
                first_bad_byte(pattern@, k) && is_bad_argument_got(
                    e,
                    1,
                    "regex.compile"@,
                    "valid UTF-8 pattern"@,
                    invalid_utf8_text(k),
                )
        },
{
    match require_utf8(pattern, "regex.compile", 1, "valid UTF-8 pattern") {
        Err(e) => return Err(e),
        Ok(()) => {},
    }
    let o = match opts {
        Some(v) => v,
        None => RegexOpts::default(),
    };
    let build = fancy_build(&o);
    match build_fancy_regex(pattern, &build) {
        Err(err) => {
            let got = fancy_error_text(&err);
            Err(bad_argument(1, "regex.compile", "a valid regex pattern", got))
        },
        Ok(inner) => {
            let n = pattern.len();
            let text = copy_range(pattern, 0, n);
            assert(pattern@.subrange(0, n as int) =~= pattern@);
            let mut re = LuaRegex { inner, pattern: text, build, names: Vec::new() };
            let names = fancy_capture_names(&re);
            re.names = names;
            Ok(re)
        },
    }
}

/// The error for a haystack that is not UTF-8: argument 2 (after the
/// regex itself) of `function`.
pub open spec fn is_haystack_error(e: LibError, hay: Seq<u8>, function: Seq<char>) -> bool {
    exists|k: int|
        first_bad_byte(hay, k) && is_bad_argument_got(
            e,
            2,
            function,
            "valid UTF-8 string"@,
            invalid_utf8_text(k),
        )
}

impl LuaRegex {
    /// The pattern the regex was built from.
    pub closed spec fn pattern_view(&self) -> Seq<u8> {
        self.pattern@
    }

    /// The build the regex was made with.
    pub closed spec fn build_view(&self) -> FancyBuild {
        self.build
    }

    /// The group names kept are those of the regex.
    pub closed spec fn wf(&self) -> bool {
        &&& names_view(self.names@) == fancy_regex_names(self.pattern@, self.build)
        &&& self.names@.len() >= 1
    }

    /// The names of the groups of the regex.
    pub open spec fn names_spec(&self) -> Seq<Option<Seq<u8>>> {
        fancy_regex_names(self.pattern_view(), self.build_view())
    }

    /// The pattern source as given to `regex.compile`.
    pub fn pattern(&self) -> (r: Vec<u8>)
        ensures
            r@ == self.pattern_view(),
    {
        let n = self.pattern.len();
        let r = copy_range(self.pattern.as_slice(), 0, n);
        assert(self.pattern@.subrange(0, n as int) =~= self.pattern@);
        r
    }

    /// Whether the regex matches anywhere in the UTF-8 `hay`.
    pub fn is_match(&self, hay: &[u8]) -> (r: Result<bool, LibError>)
        ensures
            !valid_utf8(hay@) ==> (r matches Err(e) && is_haystack_error(e, hay@, "Regex:is_match"@)),
            valid_utf8(hay@) ==> match fancy_regex_is_match(
                self.pattern_view(),
                self.build_view(),
                hay@,
            ) {
                Some(b) => r == Ok::<bool, LibError>(b),
                None => r matches Err(e) && e is Runtime,
            },
    {
        match require_utf8(hay, "Regex:is_match", 2, "valid UTF-8 string") {
            Err(e) => return Err(e),
            Ok(()) => {},
        }
        match fancy_is_match(self, hay) {
            Ok(b) => Ok(b),
            Err(e) => Err(search_failure(&e)),
        }
    }

    /// The first match in the UTF-8 `hay` at or after the 1-based offset
    /// `init` (default 1, negative from the end): its 1-based first and
    /// last positions and its text.
    pub fn find(&self, hay: &[u8], init: Option<i64>) -> (r: Result<Option<(i64, i64, Vec<u8>)>, LibError>)
        requires
            hay@.len() < isize::MAX,
        ensures
            !valid_utf8(hay@) ==> (r matches Err(e) && is_haystack_error(e, hay@, "Regex:find"@)),
            valid_utf8(hay@) ==> match fancy_regex_find(
                self.pattern_view(),
                self.build_view(),
                hay@,
                init_offset_spec(init, hay@.len() as int),
            ) {
                Some(Some((s, e))) => r matches Ok(Some((a, b, t))) && a == s + 1 && b == e && t@
                    == hay@.subrange(s as int, e as int),
                Some(None) => r matches Ok(None),
                None => r matches Err(e) && e is Runtime,
            },
    {
        match require_utf8(hay, "Regex:find", 2, "valid UTF-8 string") {
            Err(e) => return Err(e),
            Ok(()) => {},
        }
        let off = init_to_offset(init, hay.len());
        match fancy_find_from(self, hay, off) {
            Ok(Some((s, e))) => Ok(Some(((s + 1) as i64, e as i64, copy_range(hay, s, e)))),
            Ok(None) => Ok(None),
            Err(e) => Err(search_failure(&e)),
        }
    }

    /// The captures of `groups`, a match in `hay`.
    fn captures_of(&self, hay: &[u8], groups: Vec<Option<(usize, usize)>>) -> (r: LuaCaptures)
        requires
            self.wf(),
            hay@.len() < isize::MAX,
            groups_within(groups@, hay@.len() as int),
        ensures
            r.captures()@ == (CapturesView {
                haystack: hay@,
                groups: groups@,
                names: self.names_spec(),
            }),
    {
        let n = hay.len();
        let h = copy_range(hay, 0, n);
        assert(hay@.subrange(0, n as int) =~= hay@);
        let names = copy_names(&self.names, 0);
        assert(names_view(self.names@).subrange(0, self.names@.len() as int) =~= names_view(
            self.names@,
        ));
        let data = CapturesData { haystack: h, groups, names };
        assert(data@.wf());
        LuaCaptures::new(data)
    }

    /// The captures of the first match in the UTF-8 `hay` at or after the
    /// 1-based offset `init` (default 1, negative from the end).
    pub fn captures(&self, hay: &[u8], init: Option<i64>) -> (r: Result<Option<LuaCaptures>, LibError>)
        requires
            self.wf(),
            hay@.len() < isize::MAX,
        ensures
            !valid_utf8(hay@) ==> (r matches Err(e) && is_haystack_error(e, hay@, "Regex:captures"@)),
            valid_utf8(hay@) ==> match fancy_regex_captures(
                self.pattern_view(),
                self.build_view(),
                hay@,
                init_offset_spec(init, hay@.len() as int),
            ) {
                Some(Some(g)) => r matches Ok(Some(c)) && c.captures()@ == (CapturesView {
                    haystack: hay@,
                    groups: g,
                    names: self.names_spec(),
                }),
                Some(None) => r matches Ok(None),
                None => r matches Err(e) && e is Runtime,
            },
    {
        match require_utf8(hay, "Regex:captures", 2, "valid UTF-8 string") {
            Err(e) => return Err(e),
            Ok(()) => {},
        }
        let off = init_to_offset(init, hay.len());
        match fancy_captures_from(self, hay, off) {
            Ok(Some(g)) => Ok(Some(self.captures_of(hay, g))),
            Ok(None) => Ok(None),
            Err(e) => Err(search_failure(&e)),
        }
    }

    /// The names of the explicit groups (group 0, the whole match, left
    /// out): `None` for an unnamed group.
    pub fn capture_names(&self) -> (r: Vec<Option<Vec<u8>>>)
        requires
            self.wf(),
        ensures
            names_view(r@) == self.names_spec().subrange(1, self.names_spec().len() as int),
    {
        copy_names(&self.names, 1)
    }

    /// The number of explicit groups (the whole match not counted).
    pub fn capture_count(&self) -> (r: i64)
        ensures
            fancy_regex_group_count(self.pattern_view(), self.build_view()) - 1 <= i64::MAX ==> r
                == fancy_regex_group_count(self.pattern_view(), self.build_view()) - 1,
            fancy_regex_group_count(self.pattern_view(), self.build_view()) - 1 > i64::MAX ==> r
                == i64::MAX,
    {
        let n = fancy_captures_len(self);
        if ((n - 1) as u64) > (i64::MAX as u64) {
            i64::MAX
        } else {
            (n - 1) as i64
        }
    }

    /// Start a walk over the matches of the UTF-8 `hay`.
    pub fn find_iter(&self, hay: &[u8]) -> (r: Result<MatchCursor, LibError>)
        ensures
            r is Ok <==> valid_utf8(hay@),
            r matches Ok(c) ==> c.offset == 0 && c.last_end is None,
            r matches Err(e) ==> is_haystack_error(e, hay@, "Regex:find_iter"@),
    {
        match require_utf8(hay, "Regex:find_iter", 2, "valid UTF-8 string") {
            Err(e) => Err(e),
            Ok(()) => Ok(MatchCursor::new()),
        }
    }

    /// Start a walk over the captures of the matches of the UTF-8 `hay`.
    pub fn captures_iter(&self, hay: &[u8]) -> (r: Result<MatchCursor, LibError>)
        ensures
            r is Ok <==> valid_utf8(hay@),
            r matches Ok(c) ==> c.offset == 0 && c.last_end is None,
            r matches Err(e) ==> is_haystack_error(e, hay@, "Regex:captures_iter"@),
    {
        match require_utf8(hay, "Regex:captures_iter", 2, "valid UTF-8 string") {
            Err(e) => Err(e),
            Ok(()) => Ok(MatchCursor::new()),
        }
    }

    /// The next match of a walk over `hay`: none when `hay` is not UTF-8
    /// or the walk is past the end; else the search from the walk's
    /// offset: its failure, or nothing, or the match as 1-based first and
    /// last positions and its text, after which the walk moves on.
    pub fn find_next(&self, cur: &mut MatchCursor, hay: &[u8]) -> (r: Option<
        Result<(i64, i64, Vec<u8>), LibError>,
    >)
        requires
            hay@.len() < isize::MAX,
        ensures
            !valid_utf8(hay@) || old(cur).offset > hay@.len() ==> r is None && *final(cur) == *old(
                cur,
            ),
            valid_utf8(hay@) && old(cur).offset <= hay@.len() ==> match fancy_regex_find(
                self.pattern_view(),
                self.build_view(),
                hay@,
                old(cur).offset as int,
            ) {
                None => r matches Some(Err(e)) && e is Runtime && *final(cur) == *old(cur),
                Some(None) => r is None && *final(cur) == *old(cur),
                Some(Some((s, e))) => {
                    &&& r matches Some(Ok((a, b, t))) && a == s + 1 && b == e && t@
                        == hay@.subrange(s as int, e as int)
                    &&& (final(cur).offset, final(cur).last_end) == old(cur).after(s as int, e as int)
                },
            },
    {
        match utf8_error_at(hay) {
            Some(_) => return None,
            None => {},
        }
        if cur.offset > hay.len() {
            return None;
        }
        match fancy_find_from(self, hay, cur.offset) {
            Err(e) => Some(Err(search_failure(&e))),
            Ok(None) => None,
            Ok(Some((s, e))) => {
                cur.advance(s, e);
                Some(Ok(((s + 1) as i64, e as i64, copy_range(hay, s, e))))
            },
        }
    }

    /// The captures of the next match of a walk over `hay` (see
    /// `find_next`); the walk moves on past the whole match.
    pub fn captures_next(&self, cur: &mut MatchCursor, hay: &[u8]) -> (r: Option<Result<LuaCaptures, LibError>>)
        requires
            self.wf(),
            hay@.len() < isize::MAX,
        ensures
            !valid_utf8(hay@) || old(cur).offset > hay@.len() ==> r is None && *final(cur) == *old(
                cur,
            ),
            valid_utf8(hay@) && old(cur).offset <= hay@.len() ==> match fancy_regex_captures(
                self.pattern_view(),
                self.build_view(),
                hay@,
                old(cur).offset as int,
            ) {
                None => r matches Some(Err(e)) && e is Runtime && *final(cur) == *old(cur),
                Some(None) => r is None && *final(cur) == *old(cur),
                Some(Some(g)) => {
                    &&& r matches Some(Ok(c)) && c.captures()@ == (CapturesView {
                        haystack: hay@,
                        groups: g,
                        names: self.names_spec(),
                    })
                    &&& whole_span(g) matches Some((s, e)) && (final(cur).offset, final(cur).last_end)
                        == old(cur).after(s as int, e as int)
                },
            },
    {
        match utf8_error_at(hay) {
            Some(_) => return None,
            None => {},
        }
        if cur.offset > hay.len() {
            return None;
        }
        match fancy_captures_from(self, hay, cur.offset) {
            Err(e) => Some(Err(search_failure(&e))),
            Ok(None) => None,
            Ok(Some(g)) => {
                let (s, e) = match g[0] {
                    Some(span) => span,
                    None => (0, 0),
                };
                assert(whole_span(g@) == g@[0]);
                cur.advance(s, e);
                Some(Ok(self.captures_of(hay, g)))
            },
        }
    }

    /// Split the UTF-8 `hay` on the matches: the pieces between them, the
    /// last holding the rest; a `limit` above 0 caps the number of pieces.
    pub fn split(&self, hay: &[u8], limit: Option<i64>) -> (r: Result<Vec<Vec<u8>>, LibError>)
        requires
            hay@.len() < isize::MAX,
        ensures
            !valid_utf8(hay@) ==> (r matches Err(e) && is_haystack_error(e, hay@, "Regex:split"@)),
            valid_utf8(hay@) ==> match split_from(
                fancy_find_oracle(self.pattern_view(), self.build_view(), hay@),
                hay@,
                split_limit_spec(limit) as nat,
                0,
                0,
                0,
            ) {
                Some(p) => r matches Ok(v) && pieces_view(v@) == p,
                None => r matches Err(e) && e is Runtime,
            },
    {
        match require_utf8(hay, "Regex:split", 2, "valid UTF-8 string") {
            Err(e) => return Err(e),
            Ok(()) => {},
        }
        let lim = split_limit(limit);
        let n = hay.len();
        let ghost f = fancy_find_oracle(self.pattern_view(), self.build_view(), hay@);
        let ghost target = split_from(f, hay@, lim as nat, 0, 0, 0);
        let mut out: Vec<Vec<u8>> = Vec::new();
        let mut last: usize = 0;
        let mut count: usize = 0;
        let mut offset: usize = 0;
        assert(pieces_view(out@) =~= Seq::<Seq<u8>>::empty());
        loop
            invariant_except_break
                offset <= n,
                target == match split_from(f, hay@, lim as nat, last as int, offset as int, count as nat) {
                    Some(rest) => Some(pieces_view(out@) + rest),
                    None => None,
                },
            invariant
                n == hay@.len(),
                n < isize::MAX,
                valid_utf8(hay@),
                last <= offset,
                last <= n,
                count <= offset,
                f == fancy_find_oracle(self.pattern_view(), self.build_view(), hay@),
                lim == split_limit_spec(limit),
                target == split_from(f, hay@, lim as nat, 0, 0, 0),
            ensures
                target == Some(pieces_view(out@) + seq![hay@.subrange(last as int, n as int)]),
            decreases n + 1 - offset,
        {
            if lim != 0 && count + 1 >= lim {
                break;
            }
            let m = match fancy_find_from(self, hay, offset) {
                Ok(m) => m,
                Err(e) => {
                    assert(f(offset as int) is None);
                    assert(split_from(f, hay@, lim as nat, last as int, offset as int, count as nat)
                        is None);
                    return Err(search_failure(&e));
                },
            };
            assert(f(offset as int) == Some(m));
            match m {
                None => break,
                Some((s, e)) => {
                    let ghost before = out@;
                    let piece = copy_range(hay, last, s);
                    out.push(piece);
                    assert(pieces_view(out@) =~= pieces_view(before).push(piece@));
                    last = e;
                    offset = if s == e {
                        e + 1
                    } else {
                        e
                    };
                    count = count + 1;
                    if offset > n {
                        assert(pieces_view(out@) + seq![hay@.subrange(last as int, n as int)]
                            =~= pieces_view(before) + seq![piece@, hay@.subrange(e as int, n as int)]);
                        break;
                    }
                    proof {
                        let r = split_from(f, hay@, lim as nat, last as int, offset as int, count as nat);
                        if let Some(rest) = r {
                            assert(pieces_view(out@) + rest =~= pieces_view(before) + (seq![piece@] + rest));
                        }
                    }
                },
            }
        }
        let ghost before = out@;
        let tail = copy_range(hay, last, n);
        out.push(tail);
        assert(pieces_view(out@) =~= pieces_view(before).push(tail@));
        Ok(out)
    }

    /// One step of a replacement in `hay` (see the byte engine's
    /// `replace_next`): a haystack that is not UTF-8 is refused, and a
    /// failed search is a runtime error.
    pub fn replace_next(&self, st: &mut Replacement, hay: &[u8]) -> (r: Result<Option<LuaCaptures>, LibError>)
        requires
            self.wf(),
            old(st).wf(hay@.len() as int),
            hay@.len() < isize::MAX,
        ensures
            final(st).limit == old(st).limit,
            final(st).wf(hay@.len() as int),
            !valid_utf8(hay@) ==> (r matches Err(e) && is_haystack_error(e, hay@, "Regex:replace"@)),
            valid_utf8(hay@) ==> if old(st).done || old(st).count >= old(st).limit {
                &&& r matches Ok(None)
                &&& final(st).done
                &&& final(st).out@ == old(st).out@
                &&& final(st).last == old(st).last
            } else {
                match fancy_regex_captures(
                    self.pattern_view(),
                    self.build_view(),
                    hay@,
                    old(st).offset as int,
                ) {
                    None => r matches Err(e) && e is Runtime,
                    Some(None) => {
                        &&& r matches Ok(None)
                        &&& final(st).done
                        &&& final(st).out@ == old(st).out@
                        &&& final(st).last == old(st).last
                    },
                    Some(Some(g)) => {
                        &&& r matches Ok(Some(c)) && c.captures()@ == (CapturesView {
                            haystack: hay@,
                            groups: g,
                            names: self.names_spec(),
                        })
                        &&& whole_span(g) matches Some((s, e)) && {
                            &&& span_in(s as int, e as int, old(st).offset as int, hay@.len() as int)
                            &&& final(st).out@ == old(st).out@ + hay@.subrange(
                                old(st).last as int,
                                s as int,
                            )
                            &&& final(st).last == e
                            &&& final(st).offset as int == resume_after(s as int, e as int)
                            &&& final(st).count == old(st).count + 1
                            &&& final(st).done == (final(st).offset > hay@.len())
                        }
                    },
                }
            },
    {
        match require_utf8(hay, "Regex:replace", 2, "valid UTF-8 string") {
            Err(e) => return Err(e),
            Ok(()) => {},
        }
        if st.done || st.count >= st.limit {
            st.stop();
            return Ok(None);
        }
        match fancy_captures_from(self, hay, st.offset) {
            Err(e) => Err(search_failure(&e)),
            Ok(None) => {
                st.stop();
                Ok(None)
            },
            Ok(Some(g)) => {
                let (s, e) = match g[0] {
                    Some(span) => span,
                    None => (0, 0),
                };
                assert(whole_span(g@) == g@[0]);
                st.take_match(hay, s, e);
                Ok(Some(self.captures_of(hay, g)))
            },
        }
    }

    /// Replace at most `limit` matches in the UTF-8 `hay` by the expansion
    /// of the `$N` / `${name}` template against their captures.
    pub fn replace_template(&self, hay: &[u8], template: &[u8], limit: usize) -> (r: Result<
        Vec<u8>,
        LibError,
    >)
        requires
            self.wf(),
            hay@.len() < isize::MAX,
        ensures
            !valid_utf8(hay@) ==> (r matches Err(e) && is_haystack_error(e, hay@, "Regex:replace"@)),
            valid_utf8(hay@) ==> match replace_from(
                fancy_captures_oracle(self.pattern_view(), self.build_view(), hay@),
                template_rep(hay@, self.names_spec(), template@),
                hay@,
                limit as nat,
                0,
                0,
                0,
            ) {
                Some(v) => r matches Ok(w) && w@ == v,
                None => r matches Err(e) && e is Runtime,
            },
    {
        match require_utf8(hay, "Regex:replace", 2, "valid UTF-8 string") {
            Err(e) => return Err(e),
            Ok(()) => {},
        }
        let n = hay.len();
        let ghost c = fancy_captures_oracle(self.pattern_view(), self.build_view(), hay@);
        let ghost rep = template_rep(hay@, self.names_spec(), template@);
        let ghost target = replace_from(c, rep, hay@, limit as nat, 0, 0, 0);
        let mut st = Replacement::new(limit);
        assert(st.out@ =~= Seq::<u8>::empty());
        loop
            invariant
                n == hay@.len(),
                n < isize::MAX,
                valid_utf8(hay@),
                self.wf(),
                st.wf(n as int),
                st.limit == limit,
                c == fancy_captures_oracle(self.pattern_view(), self.build_view(), hay@),
                rep == template_rep(hay@, self.names_spec(), template@),
                target == replace_from(c, rep, hay@, limit as nat, 0, 0, 0),
                !st.done ==> target == match replace_from(
                    c,
                    rep,
                    hay@,
                    limit as nat,
                    st.last as int,
                    st.offset as int,
                    st.count as nat,
                ) {
                    Some(rest) => Some(st.out@ + rest),
                    None => None,
                },
                st.done ==> target == Some(st.result(hay@)),
            ensures
                st.done,
                st.wf(n as int),
                target == Some(st.result(hay@)),
            decreases (if st.done {
                0
            } else {
                n + 2 - st.offset
            }),
        {
            let ghost old_st_out = st.out@;
            let ghost old_last = st.last;
            let ghost old_offset = st.offset;
            let ghost old_count = st.count;
            let ghost was_done = st.done;
            let step = self.replace_next(&mut st, hay);
            match step {
                Err(e) => {
                    proof {
                        assert(!was_done && old_count < limit);
                        assert(c(old_offset as int) is None);
                    }
                    return Err(e);
                },
                Ok(None) => {
                    proof {
                        if !was_done {
                            assert(st.out@ == old_st_out);
                            assert(st.last == old_last);
                            if old_count < limit {
                                assert(c(old_offset as int) == fancy_regex_captures(
                                    self.pattern_view(),
                                    self.build_view(),
                                    hay@,
                                    old_offset as int,
                                ));
                            }
                            assert(replace_from(
                                c,
                                rep,
                                hay@,
                                limit as nat,
                                old_last as int,
                                old_offset as int,
                                old_count as nat,
                            ) == Some(hay@.subrange(old_last as int, n as int)));
                        }
                    }
                    break;
                },
                Ok(Some(cap)) => {
                    let piece = cap.expand(template);
                    let ghost mid_out = st.out@;
                    st.push(piece.as_slice());
                    proof {
                        let g = fancy_regex_captures(
                            self.pattern_view(),
                            self.build_view(),
                            hay@,
                            old_offset as int,
                        )->0->0;
                        assert(c(old_offset as int) == Some(Some(g)));
                        assert(rep(g) == piece@);
                        let (s, e) = whole_span(g)->0;
                        assert(mid_out == old_st_out + hay@.subrange(old_last as int, s as int));
                        let head = hay@.subrange(old_last as int, s as int) + rep(g);
                        if st.done {
                            assert(st.result(hay@) =~= old_st_out + (head + hay@.subrange(
                                e as int,
                                n as int,
                            )));
                        } else {
                            let r = replace_from(
                                c,
                                rep,
                                hay@,
                                limit as nat,
                                st.last as int,
                                st.offset as int,
                                st.count as nat,
                            );
                            if let Some(rest) = r {
                                assert(st.out@ + rest =~= old_st_out + (head + rest));
                            }
                        }
                    }
                },
            }
        }
        Ok(st.finish(hay))
    }
}

} // verus!
