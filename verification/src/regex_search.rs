//! How both regular-expression engines walk a haystack match by match:
//! where the next search starts, how a haystack is split on the matches,
//! and how matches are replaced.
//!
//! A search from a position is described by its outcome: `None` when the
//! engine failed at run time, `Some(None)` when nothing matched, and
//! `Some(Some((s, e)))` for a match spanning `s..e`.  For captures the
//! outcome carries the span of every group, group 0 being the whole match.
use vstd::prelude::*;
use crate::regex_lib::{CapturesView, expand_spec};
use crate::decimal::{decimal_bytes, int_decimal};
use crate::error::{LibError, bad_argument, is_bad_argument_got};

verus! {

/// Where the search resumes after the match `s..e`: one past an empty
/// match, at the end of a non-empty one.
pub open spec fn resume_after(s: int, e: int) -> int {
    if s == e {
        e + 1
    } else {
        e
    }
}

/// A match found by a search from `pos` lies in `pos..=len`.
pub open spec fn span_in(s: int, e: int, pos: int, len: int) -> bool {
    0 <= pos <= s <= e <= len
}

/// The span of the whole match among the groups of a captures outcome.
pub open spec fn whole_span(g: Seq<Option<(usize, usize)>>) -> Option<(usize, usize)> {
    if g.len() > 0 {
        g[0]
    } else {
        None
    }
}

/// Every group span of a match lies within the haystack.
pub open spec fn groups_within(g: Seq<Option<(usize, usize)>>, len: int) -> bool {
    forall|i: int|
        0 <= i < g.len() ==> (#[trigger] g[i] matches Some((a, b)) ==> a <= b <= len)
}

/// The pieces of `hay` between the matches found from `offset` on, the
/// last piece starting at `last`; a `limit` other than 0 caps the number
/// of pieces.  `None` when a search fails.
pub open spec fn split_from(
    find: spec_fn(int) -> Option<Option<(usize, usize)>>,
    hay: Seq<u8>,
    limit: nat,
    last: int,
    offset: int,
    count: nat,
) -> Option<Seq<Seq<u8>>>
    decreases hay.len() + 1 - offset,
{
    let rest = hay.subrange(last, hay.len() as int);
    if limit != 0 && count + 1 >= limit {
        Some(seq![rest])
    } else {
        match find(offset) {
            None => None,
            Some(None) => Some(seq![rest]),
            Some(Some((s, e))) => {
                if last <= offset && span_in(s as int, e as int, offset, hay.len() as int) {
                    let piece = hay.subrange(last, s as int);
                    let next = resume_after(s as int, e as int);
                    if next > hay.len() {
                        Some(seq![piece, hay.subrange(e as int, hay.len() as int)])
                    } else {
                        match split_from(find, hay, limit, e as int, next, count + 1) {
                            Some(r) => Some(seq![piece] + r),
                            None => None,
                        }
                    }
                } else {
                    None
                }
            },
        }
    }
}

/// `hay` with at most `limit` matches found from `offset` on replaced by
/// `rep` of their groups; text before `last` is already dealt with.
/// `None` when a search fails.
pub open spec fn replace_from(
    caps: spec_fn(int) -> Option<Option<Seq<Option<(usize, usize)>>>>,
    rep: spec_fn(Seq<Option<(usize, usize)>>) -> Seq<u8>,
    hay: Seq<u8>,
    limit: nat,
    last: int,
    offset: int,
    count: nat,
) -> Option<Seq<u8>>
    decreases hay.len() + 1 - offset,
{
    let rest = hay.subrange(last, hay.len() as int);
    if count >= limit {
        Some(rest)
    } else {
        match caps(offset) {
            None => None,
            Some(None) => Some(rest),
            Some(Some(g)) => match whole_span(g) {
                Some((s, e)) => {
                    if last <= offset && span_in(s as int, e as int, offset, hay.len() as int) {
                        let head = hay.subrange(last, s as int) + rep(g);
                        let next = resume_after(s as int, e as int);
                        if next > hay.len() {
                            Some(head + hay.subrange(e as int, hay.len() as int))
                        } else {
                            match replace_from(caps, rep, hay, limit, e as int, next, count + 1) {
                                Some(r) => Some(head + r),
                                None => None,
                            }
                        }
                    } else {
                        None
                    }
                },
                None => None,
            },
        }
    }
}

/// The replacement of a match by a `$N` / `${name}` template.
pub open spec fn template_rep(hay: Seq<u8>, names: Seq<Option<Seq<u8>>>, template: Seq<u8>) -> spec_fn(
    Seq<Option<(usize, usize)>>,
) -> Seq<u8> {
    |g: Seq<Option<(usize, usize)>>|
        expand_spec(CapturesView { haystack: hay, groups: g, names: names }, template, 0)
}

/// A count given as an integer, clamped at 0 and taken as a `usize`.
pub open spec fn clamped_count(v: i64) -> usize {
    (if v < 0 {
        0
    } else {
        v
    }) as usize
}

/// An integer clamped at 0 and taken as a `usize` (see `clamped_count`).
pub fn clamp_count(v: i64) -> (r: usize)
    ensures
        r == clamped_count(v),
{
    let c: i64 = if v < 0 {
        0
    } else {
        v
    };
    c as usize
}

/// The number of replacements that `replace` makes: `n` clamped at 0,
/// 1 when absent.
pub open spec fn replace_count_spec(n: Option<i64>) -> usize {
    match n {
        Some(v) => clamped_count(v),
        None => 1,
    }
}

/// The number of replacements that `replace` makes (see
/// `replace_count_spec`).
pub fn replace_count(n: Option<i64>) -> (r: usize)
    ensures
        r == replace_count_spec(n),
{
    match n {
        Some(v) => clamp_count(v),
        None => 1,
    }
}

/// The cap on pieces of `split`: `limit` clamped at 0, no cap (0) when
/// absent.
pub open spec fn split_limit_spec(limit: Option<i64>) -> usize {
    match limit {
        Some(v) => clamped_count(v),
        None => 0,
    }
}

/// The cap on pieces of `split` (see `split_limit_spec`).
pub fn split_limit(limit: Option<i64>) -> (r: usize)
    ensures
        r == split_limit_spec(limit),
{
    match limit {
        Some(v) => clamp_count(v),
        None => 0,
    }
}

/// The position of a walk over successive matches: where the next search
/// starts, and where the last match ended.
#[derive(Debug, Clone, Copy)]
pub struct MatchCursor {
    pub offset: usize,
    pub last_end: Option<usize>,
}

impl MatchCursor {
    /// A walk from the start of the haystack.
    pub fn new() -> (r: MatchCursor)
        ensures
            r.offset == 0,
            r.last_end is None,
    {
        MatchCursor { offset: 0, last_end: None }
    }

    /// The walk after a match `s..e`: an empty match where the last one
    /// ended moves the search one byte on; any other match resumes after
    /// itself and becomes the last match.
    pub open spec fn after(self, s: int, e: int) -> (usize, Option<usize>) {
        if s == e && self.last_end == Some(e as usize) {
            ((self.offset + 1) as usize, self.last_end)
        } else {
            (resume_after(s, e) as usize, Some(e as usize))
        }
    }

    /// Move the walk past the match `s..e` found from its offset.
    pub fn advance(&mut self, s: usize, e: usize)
        requires
            old(self).offset <= s <= e < usize::MAX,
        ensures
            (final(self).offset, final(self).last_end) == old(self).after(s as int, e as int),
    {
        if s == e && self.last_end == Some(e) {
            self.offset = self.offset + 1;
        } else {
            self.last_end = Some(e);
            self.offset = if s == e {
                e + 1
            } else {
                e
            };
        }
    }
}

/// The state of a replacement in progress: the output so far, where the
/// untouched text starts, where the next search starts, the matches
/// replaced and the most that may be.
#[derive(Debug)]
pub struct Replacement {
    pub out: Vec<u8>,
    pub last: usize,
    pub offset: usize,
    pub count: usize,
    pub limit: usize,
    pub done: bool,
}

impl Replacement {
    /// A replacement of at most `limit` matches, from the start.
    pub fn new(limit: usize) -> (r: Replacement)
        ensures
            r.out@.len() == 0,
            r.last == 0,
            r.offset == 0,
            r.count == 0,
            r.limit == limit,
            !r.done,
    {
        Replacement { out: Vec::new(), last: 0, offset: 0, count: 0, limit, done: false }
    }

    /// The untouched text is not past the next search, nor that past the
    /// haystack while matches may follow.
    pub open spec fn wf(&self, len: int) -> bool {
        &&& self.last <= self.offset
        &&& self.last <= len
        &&& !self.done ==> self.offset <= len
    }

    /// The whole output, once the text after the last replaced match is
    /// added.
    pub open spec fn result(&self, hay: Seq<u8>) -> Seq<u8> {
        self.out@ + hay.subrange(self.last as int, hay.len() as int)
    }

    /// Record the match `s..e` found from the offset: the text before it
    /// goes to the output, and the search resumes after it.
    pub fn take_match(&mut self, hay: &[u8], s: usize, e: usize)
        requires
            old(self).wf(hay@.len() as int),
            !old(self).done,
            old(self).count < old(self).limit,
            span_in(s as int, e as int, old(self).offset as int, hay@.len() as int),
            hay@.len() < usize::MAX,
        ensures
            final(self).out@ == old(self).out@ + hay@.subrange(old(self).last as int, s as int),
            final(self).last == e,
            final(self).offset as int == resume_after(s as int, e as int),
            final(self).count == old(self).count + 1,
            final(self).limit == old(self).limit,
            final(self).done == (final(self).offset > hay@.len()),
            final(self).wf(hay@.len() as int),
    {
        crate::byte_str::append_range(&mut self.out, hay, self.last, s);
        self.last = e;
        self.offset = if s == e {
            e + 1
        } else {
            e
        };
        self.count = self.count + 1;
        self.done = self.offset > hay.len();
    }

    /// Stop: no further match is replaced.
    pub fn stop(&mut self)
        ensures
            final(self).out == old(self).out,
            final(self).last == old(self).last,
            final(self).offset == old(self).offset,
            final(self).count == old(self).count,
            final(self).limit == old(self).limit,
            final(self).done,
    {
        self.done = true;
    }

    /// Append the replacement of the match just taken.
    pub fn push(&mut self, piece: &[u8])
        ensures
            final(self).out@ == old(self).out@ + piece@,
            final(self).last == old(self).last,
            final(self).offset == old(self).offset,
            final(self).count == old(self).count,
            final(self).limit == old(self).limit,
            final(self).done == old(self).done,
    {
        crate::byte_str::append_all(&mut self.out, piece);
    }

    /// The output with the text after the last replaced match.
    pub fn finish(self, hay: &[u8]) -> (r: Vec<u8>)
        requires
            self.last <= hay@.len(),
        ensures
            r@ == self.result(hay@),
    {
        let mut out = self.out;
        let n = hay.len();
        crate::byte_str::append_range(&mut out, hay, self.last, n);
        out
    }
}

/// The pieces of a split as byte strings.
pub open spec fn pieces_view(v: Seq<Vec<u8>>) -> Seq<Seq<u8>> {
    v.map_values(|p: Vec<u8>| p@)
}

/// What a replacement function or table gives for a match.
#[derive(Debug)]
pub enum ReplacementValue {
    Nil,
    Boolean(bool),
    Str(Vec<u8>),
    Integer(i64),
    /// A float, by its rendering.
    Float(Vec<u8>),
    /// Any other value, by its type name.
    Other(String),
}

/// The text that replaces a match whose own text is `original`, given
/// the value a replacement function or table gave for it: `nil` and
/// `false` keep the match, a string or number replaces it, anything else
/// is a bad argument 3 of `function`.
pub fn replacement_from_value(v: ReplacementValue, function: &str, original: &[u8]) -> (r: Result<
    Vec<u8>,
    LibError,
>)
    ensures
        match v {
            ReplacementValue::Nil => r matches Ok(t) && t@ == original@,
            ReplacementValue::Boolean(false) => r matches Ok(t) && t@ == original@,
            ReplacementValue::Boolean(true) => r matches Err(e) && is_bad_argument_got(
                e,
                3,
                function@,
                "string, number, false, or nil"@,
                "boolean"@,
            ),
            ReplacementValue::Str(s) => r matches Ok(t) && t@ == s@,
            ReplacementValue::Integer(n) => r matches Ok(t) && t@ == int_decimal(n as int),
            ReplacementValue::Float(text) => r matches Ok(t) && t@ == text@,
            ReplacementValue::Other(name) => r matches Err(e) && is_bad_argument_got(
                e,
                3,
                function@,
                "string, number, false, or nil"@,
                name@,
            ),
        },
{
    match v {
        ReplacementValue::Nil | ReplacementValue::Boolean(false) => {
            let n = original.len();
            let t = crate::byte_str::copy_range(original, 0, n);
            assert(original@.subrange(0, n as int) =~= original@);
            Ok(t)
        },
        ReplacementValue::Boolean(true) => Err(
            bad_argument(
                3,
                function,
                "string, number, false, or nil",
                String::from_str("boolean"),
            ),
        ),
        ReplacementValue::Str(s) => Ok(s),
        ReplacementValue::Integer(n) => Ok(decimal_bytes(n)),
        ReplacementValue::Float(text) => Ok(text),
        ReplacementValue::Other(name) => Err(
            bad_argument(3, function, "string, number, false, or nil", name),
        ),
    }
}

/// The error for a replacement that is neither a string, a function nor
/// a table: a bad argument 3 of `function`, naming the type received.
pub fn bad_replacement(function: &str, kind_name: String) -> (e: LibError)
    ensures
        is_bad_argument_got(e, 3, function@, "string, function, or table"@, kind_name@),
{
    bad_argument(3, function, "string, function, or table", kind_name)
}

/// Each step of a walk over the matches moves it forward, so a walk over
/// a haystack ends.
pub proof fn law_walk_moves_forward(c: MatchCursor, s: int, e: int)
    requires
        c.offset <= s <= e < usize::MAX,
    ensures
        c.after(s, e).0 > c.offset,
{
}

/// A split capped at one piece gives the whole haystack.
pub proof fn law_split_limit_one(find: spec_fn(int) -> Option<Option<(usize, usize)>>, hay: Seq<u8>)
    ensures
        split_from(find, hay, 1, 0, 0, 0) == Some(seq![hay]),
{
    assert(hay.subrange(0, hay.len() as int) =~= hay);
}

/// A haystack in which nothing matches splits into itself alone.
pub proof fn law_split_without_match(
    find: spec_fn(int) -> Option<Option<(usize, usize)>>,
    hay: Seq<u8>,
    limit: nat,
)
    requires
        find(0) == Some(None::<(usize, usize)>),
    ensures
        split_from(find, hay, limit, 0, 0, 0) == Some(seq![hay]),
{
    assert(hay.subrange(0, hay.len() as int) =~= hay);
}

/// A split capped at `limit` pieces gives at most `limit` of them.
pub proof fn law_split_within_limit(
    find: spec_fn(int) -> Option<Option<(usize, usize)>>,
    hay: Seq<u8>,
    limit: nat,
    last: int,
    offset: int,
    count: nat,
)
    requires
        limit > count,
    ensures
        split_from(find, hay, limit, last, offset, count) matches Some(p) ==> p.len() + count
            <= limit,
    decreases hay.len() + 1 - offset,
{
    if !(count + 1 >= limit) {
        if let Some(Some((s, e))) = find(offset) {
            let next = resume_after(s as int, e as int);
            if last <= offset && span_in(s as int, e as int, offset, hay.len() as int) && next
                <= hay.len() {
                law_split_within_limit(find, hay, limit, e as int, next, count + 1);
            }
        }
    }
}

/// Replacing no match leaves the haystack as it is.
pub proof fn law_replace_none(
    caps: spec_fn(int) -> Option<Option<Seq<Option<(usize, usize)>>>>,
    rep: spec_fn(Seq<Option<(usize, usize)>>) -> Seq<u8>,
    hay: Seq<u8>,
)
    ensures
        replace_from(caps, rep, hay, 0, 0, 0, 0) == Some(hay),
{
    assert(hay.subrange(0, hay.len() as int) =~= hay);
}

} // verus!
