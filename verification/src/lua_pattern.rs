//! Lua 5.4 pattern matcher working on raw bytes.
//!
//! Lua patterns are not regular expressions: `%d` is a digit class, `-` is
//! a lazy `*`, there is no alternation, and every operation works on bytes.
//! The matcher follows the structure of the reference `match()` routine:
//! a recursive walk over the pattern with a bounded recursion depth,
//! capture slots that are rolled back on failure, and tail continuation
//! for the common single-element case.
//!
//! The meaning of a match is given by the spec functions of this module
//! (`spec_do_match` and its helpers), which describe the matcher as a
//! recursive function of the subject, the pattern, the current positions,
//! the open captures and the remaining depth.
use vstd::prelude::*;
use crate::byte_str::copy_range;

verus! {

/// Maximum number of capture groups per pattern.
pub const MAX_CAPTURES: usize = 32;

/// Maximum recursion depth inside the matcher; exceeding it reports
/// "pattern too complex".
pub const MAX_CALLS: usize = 200;

/// The Lua pattern escape byte `%`.
pub const L_ESC: u8 = 37;

// ---------------------------------------------------------------------------
// Errors
// ---------------------------------------------------------------------------

/// The kinds of error raised while validating or executing a pattern.
#[derive(Debug, Clone, Copy, PartialEq, Eq, Structural)]
pub enum PatternErrorKind {
    /// The pattern ends with a lone `%`.
    EndsWithPercent,
    /// `%b` is not followed by two bytes.
    MissingBalanceArgs,
    /// `%f` is not followed by `[`.
    MissingFrontierBracket,
    /// A `[` set has no closing `]`.
    MissingCloseBracket,
    /// A pattern element was expected past the end of the pattern.
    Malformed,
    /// More than `MAX_CAPTURES` captures.
    TooManyCaptures,
    /// A `)` without a matching `(`.
    InvalidPatternCapture,
    /// A `(` without a matching `)`.
    UnfinishedCapture,
    /// Recursion depth exhausted.
    TooComplex,
    /// A back-reference `%N` to a capture that does not exist or is not
    /// closed; the payload is `N` (a single decimal digit).
    InvalidCaptureIndex(u8),
}

/// Errors raised while compiling or executing a pattern.
#[derive(Debug)]
pub struct PatternError {
    pub kind: PatternErrorKind,
    pub message: String,
}

/// The one-character decimal rendering of a digit value.
pub open spec fn digit_text(d: u8) -> Seq<char> {
    seq![(d + 48) as char]
}

/// The message text of an error kind.
pub open spec fn error_message(k: PatternErrorKind) -> Seq<char> {
    match k {
        PatternErrorKind::EndsWithPercent => "malformed pattern (ends with '%')"@,
        PatternErrorKind::MissingBalanceArgs => "malformed pattern (missing arguments to '%b')"@,
        PatternErrorKind::MissingFrontierBracket => "missing '[' after '%f' in pattern"@,
        PatternErrorKind::MissingCloseBracket => "malformed pattern (missing ']')"@,
        PatternErrorKind::Malformed => "malformed pattern"@,
        PatternErrorKind::TooManyCaptures => "too many captures"@,
        PatternErrorKind::InvalidPatternCapture => "invalid pattern capture"@,
        PatternErrorKind::UnfinishedCapture => "unfinished capture"@,
        PatternErrorKind::TooComplex => "pattern too complex"@,
        PatternErrorKind::InvalidCaptureIndex(d) => "invalid capture index %"@ + digit_text(d),
    }
}

impl PatternError {
    /// Well-formedness: the message is the text of the kind.
    pub open spec fn wf(&self) -> bool {
        self.message@ == error_message(self.kind)
    }

    /// Build the error of a kind with its message.
    pub fn new(kind: PatternErrorKind) -> (e: PatternError)
        requires
            kind matches PatternErrorKind::InvalidCaptureIndex(d) ==> d <= 9,
        ensures
            e.kind == kind,
            e.wf(),
    {
        let message = match kind {
            PatternErrorKind::EndsWithPercent => String::from_str("malformed pattern (ends with '%')"),
            PatternErrorKind::MissingBalanceArgs => String::from_str(
                "malformed pattern (missing arguments to '%b')",
            ),
            PatternErrorKind::MissingFrontierBracket => String::from_str(
                "missing '[' after '%f' in pattern",
            ),
            PatternErrorKind::MissingCloseBracket => String::from_str("malformed pattern (missing ']')"),
            PatternErrorKind::Malformed => String::from_str("malformed pattern"),
            PatternErrorKind::TooManyCaptures => String::from_str("too many captures"),
            PatternErrorKind::InvalidPatternCapture => String::from_str("invalid pattern capture"),
            PatternErrorKind::UnfinishedCapture => String::from_str("unfinished capture"),
            PatternErrorKind::TooComplex => String::from_str("pattern too complex"),
            PatternErrorKind::InvalidCaptureIndex(d) => {
                let mut m = String::from_str("invalid capture index %");
                let digit = match d {
                    0 => "0",
                    1 => "1",
                    2 => "2",
                    3 => "3",
                    4 => "4",
                    5 => "5",
                    6 => "6",
                    7 => "7",
                    8 => "8",
                    _ => "9",
                };
                proof {
                    reveal_strlit("0");
                    reveal_strlit("1");
                    reveal_strlit("2");
                    reveal_strlit("3");
                    reveal_strlit("4");
                    reveal_strlit("5");
                    reveal_strlit("6");
                    reveal_strlit("7");
                    reveal_strlit("8");
                    reveal_strlit("9");
                }
                m.append(digit);
                assert(digit@ =~= digit_text(d));
                m
            },
        };
        PatternError { kind, message }
    }
}

// ---------------------------------------------------------------------------
// Character classes
// ---------------------------------------------------------------------------

pub open spec fn is_upper(c: u8) -> bool {
    65 <= c <= 90
}

pub open spec fn is_lower(c: u8) -> bool {
    97 <= c <= 122
}

pub open spec fn is_alpha(c: u8) -> bool {
    is_upper(c) || is_lower(c)
}

pub open spec fn is_digit(c: u8) -> bool {
    48 <= c <= 57
}

pub open spec fn is_control(c: u8) -> bool {
    c < 32 || c == 127
}

pub open spec fn is_graph(c: u8) -> bool {
    33 <= c <= 126
}

pub open spec fn is_punct(c: u8) -> bool {
    (33 <= c <= 47) || (58 <= c <= 64) || (91 <= c <= 96) || (123 <= c <= 126)
}

pub open spec fn is_space(c: u8) -> bool {
    c == 32 || (9 <= c <= 13)
}

pub open spec fn is_alnum(c: u8) -> bool {
    is_alpha(c) || is_digit(c)
}

pub open spec fn is_xdigit(c: u8) -> bool {
    is_digit(c) || (65 <= c <= 70) || (97 <= c <= 102)
}

pub open spec fn to_lower(c: u8) -> u8 {
    if is_upper(c) {
        (c + 32) as u8
    } else {
        c
    }
}

/// Does byte `c` belong to the class named by letter `cl` (as in `%cl`)?
/// Upper-case class letters denote complements; any other letter matches
/// itself literally.
pub open spec fn class_matches(c: u8, cl: u8) -> bool {
    let l = to_lower(cl);
    let known = l == 97 || l == 99 || l == 100 || l == 103 || l == 108 || l == 112 || l == 115
        || l == 117 || l == 119 || l == 120 || l == 122;
    if !known {
        cl == c
    } else {
        let res = if l == 97 {
            is_alpha(c)
        } else if l == 99 {
            is_control(c)
        } else if l == 100 {
            is_digit(c)
        } else if l == 103 {
            is_graph(c)
        } else if l == 108 {
            is_lower(c)
        } else if l == 112 {
            is_punct(c)
        } else if l == 115 {
            is_space(c)
        } else if l == 117 {
            is_upper(c)
        } else if l == 119 {
            is_alnum(c)
        } else if l == 120 {
            is_xdigit(c)
        } else {
            c == 0
        };
        if is_upper(cl) {
            !res
        } else {
            res
        }
    }
}

/// Match a single byte `c` against the class letter `cl`.
pub fn match_class(c: u8, cl: u8) -> (r: bool)
    ensures
        r == class_matches(c, cl),
{
    let lower = if 65 <= cl && cl <= 90 {
        cl + 32
    } else {
        cl
    };
    let res = if lower == 97 {
        (65 <= c && c <= 90) || (97 <= c && c <= 122)
    } else if lower == 99 {
        c < 32 || c == 127
    } else if lower == 100 {
        48 <= c && c <= 57
    } else if lower == 103 {
        33 <= c && c <= 126
    } else if lower == 108 {
        97 <= c && c <= 122
    } else if lower == 112 {
        (33 <= c && c <= 47) || (58 <= c && c <= 64) || (91 <= c && c <= 96) || (123 <= c && c
            <= 126)
    } else if lower == 115 {
        c == 32 || (9 <= c && c <= 13)
    } else if lower == 117 {
        65 <= c && c <= 90
    } else if lower == 119 {
        (65 <= c && c <= 90) || (97 <= c && c <= 122) || (48 <= c && c <= 57)
    } else if lower == 120 {
        (48 <= c && c <= 57) || (65 <= c && c <= 70) || (97 <= c && c <= 102)
    } else if lower == 122 {
        c == 0
    } else {
        return cl == c;
    };
    if 65 <= cl && cl <= 90 {
        !res
    } else {
        res
    }
}

/// Is `c` in the body of a bracket set, scanning `pat[i..ec]`?
pub open spec fn in_set(c: u8, pat: Seq<u8>, i: int, ec: int) -> bool
    decreases ec - i,
{
    if i >= ec || i < 0 || ec > pat.len() {
        false
    } else if pat[i] == L_ESC && i + 1 < ec {
        class_matches(c, pat[i + 1]) || in_set(c, pat, i + 2, ec)
    } else if i + 2 < ec && pat[i + 1] == 45 {
        (pat[i] <= c && c <= pat[i + 2]) || in_set(c, pat, i + 3, ec)
    } else {
        pat[i] == c || in_set(c, pat, i + 1, ec)
    }
}

/// Does `c` match the bracket set `pat[p..=ec]` (`pat[p]` is `[`,
/// `pat[ec]` is `]`)?  A leading `^` complements the set.
pub open spec fn bracket_matches(c: u8, pat: Seq<u8>, p: int, ec: int) -> bool {
    let negated = p + 1 < pat.len() && pat[p + 1] == 94;
    let start = if negated {
        p + 2
    } else {
        p + 1
    };
    if in_set(c, pat, start, ec) {
        !negated
    } else {
        negated
    }
}

/// Match `c` against the bracket set `pat[p..=ec]`.
pub fn match_bracket_class(c: u8, pat: &[u8], p: usize, ec: usize) -> (r: bool)
    requires
        p < ec,
        ec <= pat@.len(),
    ensures
        r == bracket_matches(c, pat@, p as int, ec as int),
{
    let mut sig = true;
    let mut i = p + 1;
    if i < pat.len() && pat[i] == 94 {
        sig = false;
        i = i + 1;
    }
    let ghost start = i;
    while i < ec
        invariant
            p < ec <= pat@.len(),
            start <= i,
            sig == !(p + 1 < pat@.len() && pat@[p + 1] == 94),
            start == (if sig { p + 1 } else { p + 2 }),
            in_set(c, pat@, start as int, ec as int) == in_set(c, pat@, i as int, ec as int),
        decreases ec - i,
    {
        if pat[i] == L_ESC && i + 1 < ec {
            if match_class(c, pat[i + 1]) {
                return sig;
            }
            i = i + 2;
        } else if ec - i > 2 && pat[i + 1] == 45 {
            if pat[i] <= c && c <= pat[i + 2] {
                return sig;
            }
            i = i + 3;
        } else {
            if pat[i] == c {
                return sig;
            }
            i = i + 1;
        }
    }
    !sig
}

// ---------------------------------------------------------------------------
// Pattern element boundaries and validation
// ---------------------------------------------------------------------------

/// Scan the body of a bracket set from `i` for its closing `]`; the result
/// is the index one past the `]`.
pub open spec fn bracket_close(pat: Seq<u8>, i: int) -> Result<int, PatternErrorKind>
    decreases pat.len() - i,
{
    if i < 0 || i >= pat.len() {
        Err(PatternErrorKind::MissingCloseBracket)
    } else if pat[i] == 93 {
        Ok(i + 1)
    } else if pat[i] == L_ESC && i + 1 < pat.len() {
        bracket_close(pat, i + 2)
    } else {
        bracket_close(pat, i + 1)
    }
}

/// Index one past the single pattern element that starts at `p`.
pub open spec fn class_end_spec(pat: Seq<u8>, p: int) -> Result<int, PatternErrorKind> {
    if p < 0 || p >= pat.len() {
        Err(PatternErrorKind::Malformed)
    } else if pat[p] == L_ESC {
        if p + 1 >= pat.len() {
            Err(PatternErrorKind::EndsWithPercent)
        } else {
            Ok(p + 2)
        }
    } else if pat[p] == 91 {
        let i1 = p + 1;
        let i2 = if i1 < pat.len() && pat[i1] == 94 {
            i1 + 1
        } else {
            i1
        };
        let i3 = if i2 < pat.len() && pat[i2] == 93 {
            i2 + 1
        } else {
            i2
        };
        bracket_close(pat, i3)
    } else {
        Ok(p + 1)
    }
}

proof fn lemma_bracket_close(pat: Seq<u8>, i: int)
    requires
        0 <= i,
    ensures
        bracket_close(pat, i) matches Ok(e) ==> i < e <= pat.len() && pat[e - 1] == 93,
        bracket_close(pat, i) matches Err(k) ==> k == PatternErrorKind::MissingCloseBracket,
    decreases pat.len() - i,
{
    if 0 <= i < pat.len() && pat[i] != 93 {
        if pat[i] == L_ESC && i + 1 < pat.len() {
            lemma_bracket_close(pat, i + 2);
        } else {
            lemma_bracket_close(pat, i + 1);
        }
    }
}

/// Facts about a successful `class_end_spec`.
pub proof fn lemma_class_end(pat: Seq<u8>, p: int)
    ensures
        class_end_spec(pat, p) matches Ok(e) ==> {
            &&& 0 <= p < e <= pat.len()
            &&& pat[p] == L_ESC ==> e == p + 2
            &&& pat[p] == 91 ==> p + 1 < e && pat[e - 1] == 93
            &&& pat[p] != L_ESC && pat[p] != 91 ==> e == p + 1
        },
        class_end_spec(pat, p) matches Err(k) ==> !(k is InvalidCaptureIndex),
{
    if 0 <= p < pat.len() && pat[p] == 91 {
        let i1 = p + 1;
        let i2 = if i1 < pat.len() && pat[i1] == 94 {
            i1 + 1
        } else {
            i1
        };
        let i3 = if i2 < pat.len() && pat[i2] == 93 {
            i2 + 1
        } else {
            i2
        };
        lemma_bracket_close(pat, i3);
    }
}

/// Index one past the single pattern element that starts at `p`.
pub fn class_end(pat: &[u8], p: usize) -> (r: Result<usize, PatternErrorKind>)
    ensures
        match class_end_spec(pat@, p as int) {
            Ok(e) => r == Ok::<usize, PatternErrorKind>(e as usize),
            Err(k) => r == Err::<usize, PatternErrorKind>(k),
        },
{
    proof {
        lemma_class_end(pat@, p as int);
    }
    if p >= pat.len() {
        return Err(PatternErrorKind::Malformed);
    }
    let c = pat[p];
    if c == L_ESC {
        if p + 1 >= pat.len() {
            return Err(PatternErrorKind::EndsWithPercent);
        }
        return Ok(p + 2);
    }
    if c != 91 {
        return Ok(p + 1);
    }
    let mut i = p + 1;
    if i < pat.len() && pat[i] == 94 {
        i = i + 1;
    }
    if i < pat.len() && pat[i] == 93 {
        i = i + 1;
    }
    let ghost i3 = i;
    while i < pat.len() && pat[i] != 93
        invariant
            p < i <= pat@.len(),
            bracket_close(pat@, i3 as int) == bracket_close(pat@, i as int),
            class_end_spec(pat@, p as int) == bracket_close(pat@, i3 as int),
        decreases pat@.len() - i,
    {
        let c = pat[i];
        i = i + 1;
        if c == L_ESC && i < pat.len() {
            i = i + 1;
        }
    }
    if i >= pat.len() {
        return Err(PatternErrorKind::MissingCloseBracket);
    }
    Ok(i + 1)
}

/// Walk of the validation pass from index `i`, with `n` captures seen and
/// `open` of them still unclosed; the result is the capture count.
pub open spec fn validate_from(pat: Seq<u8>, i: int, n: nat, open: nat) -> Result<
    nat,
    PatternErrorKind,
>
    decreases pat.len() - i,
{
    if i < 0 || i >= pat.len() {
        if open != 0 {
            Err(PatternErrorKind::UnfinishedCapture)
        } else {
            Ok(n)
        }
    } else if pat[i] == L_ESC {
        if i + 1 >= pat.len() {
            Err(PatternErrorKind::EndsWithPercent)
        } else if pat[i + 1] == 98 {
            if i + 3 >= pat.len() {
                Err(PatternErrorKind::MissingBalanceArgs)
            } else {
                validate_from(pat, i + 4, n, open)
            }
        } else if pat[i + 1] == 102 {
            if i + 2 >= pat.len() || pat[i + 2] != 91 {
                Err(PatternErrorKind::MissingFrontierBracket)
            } else {
                match class_end_spec(pat, i + 2) {
                    Err(k) => Err(k),
                    Ok(e) => if i < e <= pat.len() {
                        validate_from(pat, e, n, open)
                    } else {
                        Err(PatternErrorKind::Malformed)
                    },
                }
            }
        } else {
            validate_from(pat, i + 2, n, open)
        }
    } else if pat[i] == 91 {
        match class_end_spec(pat, i) {
            Err(k) => Err(k),
            Ok(e) => if i < e <= pat.len() {
                validate_from(pat, e, n, open)
            } else {
                Err(PatternErrorKind::Malformed)
            },
        }
    } else if pat[i] == 40 {
        if n >= MAX_CAPTURES {
            Err(PatternErrorKind::TooManyCaptures)
        } else {
            validate_from(pat, i + 1, n + 1, open + 1)
        }
    } else if pat[i] == 41 {
        if open == 0 {
            Err(PatternErrorKind::InvalidPatternCapture)
        } else {
            validate_from(pat, i + 1, n, (open - 1) as nat)
        }
    } else {
        validate_from(pat, i + 1, n, open)
    }
}

/// The validation of a whole pattern: the number of captures, or the
/// first syntax error.
pub open spec fn validate_spec(pat: Seq<u8>) -> Result<nat, PatternErrorKind> {
    validate_from(pat, 0, 0, 0)
}

/// Walk the pattern once and surface syntax errors; returns the number of
/// `(` capture groups.
fn validate(pat: &[u8]) -> (r: Result<usize, PatternErrorKind>)
    ensures
        match validate_spec(pat@) {
            Ok(n) => r == Ok::<usize, PatternErrorKind>(n as usize),
            Err(k) => r == Err::<usize, PatternErrorKind>(k),
        },
{
    let mut i: usize = 0;
    let mut n_captures: usize = 0;
    let mut open_captures: usize = 0;
    while i < pat.len()
        invariant
            i <= pat@.len(),
            n_captures <= MAX_CAPTURES,
            open_captures <= n_captures,
            validate_spec(pat@) == validate_from(pat@, i as int, n_captures as nat, open_captures as nat),
        decreases pat@.len() - i,
    {
        let c = pat[i];
        if c == L_ESC {
            if i + 1 >= pat.len() {
                return Err(PatternErrorKind::EndsWithPercent);
            }
            let next = pat[i + 1];
            if next == 98 {
                if pat.len() - i <= 3 {
                    return Err(PatternErrorKind::MissingBalanceArgs);
                }
                i = i + 4;
            } else if next == 102 {
                if i + 2 >= pat.len() || pat[i + 2] != 91 {
                    return Err(PatternErrorKind::MissingFrontierBracket);
                }
                proof {
                    lemma_class_end(pat@, i + 2);
                }
                let set_end = class_end(pat, i + 2)?;
                i = set_end;
            } else {
                i = i + 2;
            }
        } else if c == 91 {
            proof {
                lemma_class_end(pat@, i as int);
            }
            let end = class_end(pat, i)?;
            i = end;
        } else if c == 40 {
            if n_captures >= MAX_CAPTURES {
                return Err(PatternErrorKind::TooManyCaptures);
            }
            n_captures = n_captures + 1;
            open_captures = open_captures + 1;
            i = i + 1;
        } else if c == 41 {
            if open_captures == 0 {
                return Err(PatternErrorKind::InvalidPatternCapture);
            }
            open_captures = open_captures - 1;
            i = i + 1;
        } else {
            i = i + 1;
        }
    }
    if open_captures != 0 {
        return Err(PatternErrorKind::UnfinishedCapture);
    }
    Ok(n_captures)
}


// ---------------------------------------------------------------------------
// Captures and match results
// ---------------------------------------------------------------------------

/// A single capture produced by a match.
#[derive(Debug, Clone, Copy, PartialEq, Eq, Structural)]
pub enum Capture {
    /// A substring capture: `haystack[start..end]`.
    Span { start: usize, end: usize },
    /// A position capture `()`: 0-based byte index into the haystack.
    Position(usize),
}

/// The result of a successful match.
#[derive(Debug, Clone)]
pub struct Match {
    /// Inclusive start index of the whole match.
    pub start: usize,
    /// Exclusive end index of the whole match.
    pub end: usize,
    /// Explicit captures from `(...)` groups, in order.
    pub captures: Vec<Capture>,
}

/// A capture slot while matching.
#[derive(Debug, Clone, Copy, PartialEq, Eq, Structural)]
pub enum CaptureSlot {
    /// A capture that has begun at `start` but not yet closed.
    Unfinished { start: usize },
    /// A position capture at `at`.
    Position { at: usize },
    /// A closed substring capture.
    Finished { start: usize, end: usize },
}

/// The meaning of one matcher call: an error, no match, or a match
/// ending at the given index with the given capture slots.
pub enum Outcome {
    Fail(PatternErrorKind),
    NoMatch,
    Found(int, Seq<CaptureSlot>),
}

/// The capture reported for a slot after a successful match.
pub open spec fn slot_to_capture(c: CaptureSlot) -> Capture {
    match c {
        CaptureSlot::Finished { start, end } => Capture::Span { start, end },
        CaptureSlot::Position { at } => Capture::Position(at),
        CaptureSlot::Unfinished { .. } => Capture::Span { start: 0, end: 0 },
    }
}

/// The captures reported for a sequence of slots.
pub open spec fn captures_of(caps: Seq<CaptureSlot>) -> Seq<Capture> {
    caps.map_values(|c: CaptureSlot| slot_to_capture(c))
}

pub open spec fn slot_wf(c: CaptureSlot, s: int, n: int) -> bool {
    match c {
        CaptureSlot::Unfinished { start } => start <= s,
        CaptureSlot::Position { at } => at <= n,
        CaptureSlot::Finished { start, end } => start <= end <= n,
    }
}

/// The slots are bounded by the subject length `n` and open captures
/// started no later than the current position `s`.
pub open spec fn caps_wf(caps: Seq<CaptureSlot>, s: int, n: int) -> bool {
    &&& caps.len() <= MAX_CAPTURES
    &&& forall|i: int| 0 <= i < caps.len() ==> slot_wf(#[trigger] caps[i], s, n)
}

proof fn lemma_caps_wf_mono(caps: Seq<CaptureSlot>, s: int, s2: int, n: int)
    requires
        caps_wf(caps, s, n),
        s <= s2,
    ensures
        caps_wf(caps, s2, n),
{
    assert forall|i: int| 0 <= i < caps.len() implies slot_wf(#[trigger] caps[i], s2, n) by {
        assert(slot_wf(caps[i], s, n));
    }
}

// ---------------------------------------------------------------------------
// Matcher semantics
// ---------------------------------------------------------------------------

/// Does the single-byte element `pat[p..ep]` match the byte `src[s]`?
pub open spec fn singlematch_spec(src: Seq<u8>, pat: Seq<u8>, s: int, p: int, ep: int) -> bool {
    if s < 0 || s >= src.len() || p < 0 || p >= pat.len() {
        false
    } else {
        let c = src[s];
        if pat[p] == 46 {
            true
        } else if pat[p] == L_ESC {
            class_matches(c, pat[p + 1])
        } else if pat[p] == 91 {
            bracket_matches(c, pat, p, ep - 1)
        } else {
            pat[p] == c
        }
    }
}

/// The number of consecutive bytes from `s` that match the element.
pub open spec fn count_singles(src: Seq<u8>, pat: Seq<u8>, s: int, p: int, ep: int) -> int
    decreases src.len() - s,
{
    if singlematch_spec(src, pat, s, p, ep) {
        1 + count_singles(src, pat, s + 1, p, ep)
    } else {
        0
    }
}

/// Scan for the byte that closes a balanced pair, with `count` pairs open.
pub open spec fn balance_scan(src: Seq<u8>, open: u8, close: u8, i: int, count: int) -> Option<int>
    decreases src.len() - i,
{
    if i < 0 || i >= src.len() {
        None
    } else if src[i] == close {
        if count - 1 == 0 {
            Some(i + 1)
        } else {
            balance_scan(src, open, close, i + 1, count - 1)
        }
    } else if src[i] == open {
        balance_scan(src, open, close, i + 1, count + 1)
    } else {
        balance_scan(src, open, close, i + 1, count)
    }
}

/// `%bxy` with `x = pat[p]`, `y = pat[p + 1]`, at subject position `s`.
pub open spec fn match_balance_spec(src: Seq<u8>, pat: Seq<u8>, s: int, p: int) -> Result<
    Option<int>,
    PatternErrorKind,
> {
    if p < 0 || p + 1 >= pat.len() {
        Err(PatternErrorKind::MissingBalanceArgs)
    } else if s < 0 || s >= src.len() || src[s] != pat[p] {
        Ok(None)
    } else {
        Ok(balance_scan(src, pat[p], pat[p + 1], s + 1, 1))
    }
}

/// A back-reference `%digit` at subject position `s`.
pub open spec fn match_capture_spec(src: Seq<u8>, s: int, digit: u8, caps: Seq<CaptureSlot>) -> Result<
    Option<int>,
    PatternErrorKind,
> {
    let idx = digit - 48;
    if idx == 0 || idx > caps.len() {
        Err(PatternErrorKind::InvalidCaptureIndex((digit - 48) as u8))
    } else {
        match caps[idx - 1] {
            CaptureSlot::Finished { start, end } => {
                let n = end - start;
                if s + n <= src.len() && src.subrange(s, s + n) == src.subrange(
                    start as int,
                    end as int,
                ) {
                    Ok(Some(s + n))
                } else {
                    Ok(None)
                }
            },
            CaptureSlot::Position { .. } => Ok(None),
            CaptureSlot::Unfinished { .. } => Err(
                PatternErrorKind::InvalidCaptureIndex((digit - 48) as u8),
            ),
        }
    }
}

/// Index of the most recently opened capture among `caps[..k]` that is
/// still unfinished.
pub open spec fn last_unfinished(caps: Seq<CaptureSlot>, k: int) -> Option<int>
    decreases k,
{
    if k <= 0 {
        None
    } else if caps[k - 1] is Unfinished {
        Some(k - 1)
    } else {
        last_unfinished(caps, k - 1)
    }
}

/// The number of pattern bytes from `p` on (a termination measure).
pub open spec fn rest_len(pat: Seq<u8>, p: int) -> int {
    if 0 <= p <= pat.len() {
        pat.len() - p
    } else {
        0
    }
}

/// One matcher call with `d` levels of recursion left.
pub open spec fn do_match_spec(
    src: Seq<u8>,
    pat: Seq<u8>,
    s: int,
    p: int,
    caps: Seq<CaptureSlot>,
    d: nat,
) -> Outcome
    decreases d, 2 * rest_len(pat, p) + 4, 0int,
{
    if d == 0 {
        Outcome::Fail(PatternErrorKind::TooComplex)
    } else {
        body_spec(src, pat, s, p, caps, (d - 1) as nat)
    }
}

/// The matching loop at pattern position `p` and subject position `s`.
pub open spec fn body_spec(
    src: Seq<u8>,
    pat: Seq<u8>,
    s: int,
    p: int,
    caps: Seq<CaptureSlot>,
    d: nat,
) -> Outcome
    decreases d + 1, 2 * rest_len(pat, p) + 1, 0int,
{
    if p < 0 || p >= pat.len() {
        Outcome::Found(s, caps)
    } else {
        let c = pat[p];
        if c == 40 {
            if p + 1 < pat.len() && pat[p + 1] == 41 {
                start_capture_spec(src, pat, s, p + 2, caps, d, true)
            } else {
                start_capture_spec(src, pat, s, p + 1, caps, d, false)
            }
        } else if c == 41 {
            end_capture_spec(src, pat, s, p + 1, caps, d)
        } else if c == 36 && p + 1 == pat.len() {
            if s == src.len() {
                Outcome::Found(s, caps)
            } else {
                Outcome::NoMatch
            }
        } else if c == L_ESC {
            if p + 1 >= pat.len() {
                Outcome::Fail(PatternErrorKind::EndsWithPercent)
            } else {
                let next = pat[p + 1];
                if next == 98 {
                    match match_balance_spec(src, pat, s, p + 2) {
                        Err(k) => Outcome::Fail(k),
                        Ok(None) => Outcome::NoMatch,
                        Ok(Some(e)) => body_spec(src, pat, e, p + 4, caps, d),
                    }
                } else if next == 102 {
                    if !(p + 2 < pat.len() && pat[p + 2] == 91) {
                        Outcome::Fail(PatternErrorKind::MissingFrontierBracket)
                    } else {
                        match class_end_spec(pat, p + 2) {
                            Err(k) => Outcome::Fail(k),
                            Ok(ep) => {
                                proof {
                                    lemma_class_end(pat, p + 2);
                                }
                                let prev = if s <= 0 || s > src.len() {
                                    0u8
                                } else {
                                    src[s - 1]
                                };
                                let cur = if 0 <= s < src.len() {
                                    src[s]
                                } else {
                                    0u8
                                };
                                if !bracket_matches(prev, pat, p + 2, ep - 1) && bracket_matches(
                                    cur,
                                    pat,
                                    p + 2,
                                    ep - 1,
                                ) {
                                    body_spec(src, pat, s, ep, caps, d)
                                } else {
                                    Outcome::NoMatch
                                }
                            },
                        }
                    }
                } else if 48 <= next <= 57 {
                    match match_capture_spec(src, s, next, caps) {
                        Err(k) => Outcome::Fail(k),
                        Ok(None) => Outcome::NoMatch,
                        Ok(Some(e)) => body_spec(src, pat, e, p + 2, caps, d),
                    }
                } else {
                    single_spec(src, pat, s, p, caps, d)
                }
            }
        } else {
            single_spec(src, pat, s, p, caps, d)
        }
    }
}

/// A single element (byte, `.`, class or set) at `p`, possibly followed
/// by one of the quantifiers `*`, `+`, `-`, `?`.
pub open spec fn single_spec(
    src: Seq<u8>,
    pat: Seq<u8>,
    s: int,
    p: int,
    caps: Seq<CaptureSlot>,
    d: nat,
) -> Outcome
    decreases d + 1, 2 * rest_len(pat, p), 0int,
{
    match class_end_spec(pat, p) {
        Err(k) => Outcome::Fail(k),
        Ok(ep) => {
            proof {
                lemma_class_end(pat, p);
            }
            let ok = singlematch_spec(src, pat, s, p, ep);
            let has_suffix = ep < pat.len();
            let suf = if has_suffix {
                pat[ep]
            } else {
                0u8
            };
            if !ok {
                if has_suffix && (suf == 42 || suf == 63 || suf == 45) {
                    body_spec(src, pat, s, ep + 1, caps, d)
                } else {
                    Outcome::NoMatch
                }
            } else if has_suffix && suf == 63 {
                match do_match_spec(src, pat, s + 1, ep + 1, caps, d) {
                    Outcome::NoMatch => body_spec(src, pat, s, ep + 1, caps, d),
                    other => other,
                }
            } else if has_suffix && suf == 43 {
                max_expand_from(
                    src,
                    pat,
                    s + 1,
                    count_singles(src, pat, s + 1, p, ep),
                    p,
                    ep,
                    caps,
                    d,
                )
            } else if has_suffix && suf == 42 {
                max_expand_from(src, pat, s, count_singles(src, pat, s, p, ep), p, ep, caps, d)
            } else if has_suffix && suf == 45 {
                min_expand_spec(src, pat, s, p, ep, caps, d)
            } else {
                body_spec(src, pat, s + 1, ep, caps, d)
            }
        },
    }
}

/// Greedy repetition: try the rest of the pattern after `i` repetitions,
/// then after fewer.
pub open spec fn max_expand_from(
    src: Seq<u8>,
    pat: Seq<u8>,
    s: int,
    i: int,
    p: int,
    ep: int,
    caps: Seq<CaptureSlot>,
    d: nat,
) -> Outcome
    decreases d + 1, 2 * rest_len(pat, p) - 1, i,
{
    match do_match_spec(src, pat, s + i, ep + 1, caps, d) {
        Outcome::NoMatch => if i <= 0 {
            Outcome::NoMatch
        } else {
            max_expand_from(src, pat, s, i - 1, p, ep, caps, d)
        },
        other => other,
    }
}

/// Lazy repetition: try the rest of the pattern with as few repetitions
/// as possible.
pub open spec fn min_expand_spec(
    src: Seq<u8>,
    pat: Seq<u8>,
    s: int,
    p: int,
    ep: int,
    caps: Seq<CaptureSlot>,
    d: nat,
) -> Outcome
    decreases d + 1, 2 * rest_len(pat, p) - 1, src.len() - s,
{
    match do_match_spec(src, pat, s, ep + 1, caps, d) {
        Outcome::NoMatch => if singlematch_spec(src, pat, s, p, ep) {
            min_expand_spec(src, pat, s + 1, p, ep, caps, d)
        } else {
            Outcome::NoMatch
        },
        other => other,
    }
}

/// Open a capture slot (a position marker when `position`) and match the
/// rest of the pattern.
pub open spec fn start_capture_spec(
    src: Seq<u8>,
    pat: Seq<u8>,
    s: int,
    p: int,
    caps: Seq<CaptureSlot>,
    d: nat,
    position: bool,
) -> Outcome
    decreases d + 1, 0int, 0int,
{
    if caps.len() >= MAX_CAPTURES {
        Outcome::Fail(PatternErrorKind::TooManyCaptures)
    } else {
        let slot = if position {
            CaptureSlot::Position { at: s as usize }
        } else {
            CaptureSlot::Unfinished { start: s as usize }
        };
        do_match_spec(src, pat, s, p, caps.push(slot), d)
    }
}

/// Close the most recently opened unfinished capture at `s` and match the
/// rest of the pattern.
pub open spec fn end_capture_spec(
    src: Seq<u8>,
    pat: Seq<u8>,
    s: int,
    p: int,
    caps: Seq<CaptureSlot>,
    d: nat,
) -> Outcome
    decreases d + 1, 0int, 0int,
{
    match last_unfinished(caps, caps.len() as int) {
        None => Outcome::Fail(PatternErrorKind::InvalidPatternCapture),
        Some(idx) => match caps[idx] {
            CaptureSlot::Unfinished { start } => do_match_spec(
                src,
                pat,
                s,
                p,
                caps.update(idx, CaptureSlot::Finished { start, end: s as usize }),
                d,
            ),
            _ => Outcome::Fail(PatternErrorKind::InvalidPatternCapture),
        },
    }
}


// ---------------------------------------------------------------------------
// The matcher
// ---------------------------------------------------------------------------

/// Does a matcher result agree with its meaning, given the capture slots
/// before (`old_caps`) and after (`new_caps`) the call?  On no match the
/// slots are left as they were.
pub open spec fn outcome_rel(
    r: Result<Option<usize>, PatternErrorKind>,
    o: Outcome,
    old_caps: Seq<CaptureSlot>,
    new_caps: Seq<CaptureSlot>,
) -> bool {
    match o {
        Outcome::Fail(k) => r == Err::<Option<usize>, PatternErrorKind>(k),
        Outcome::NoMatch => r == Ok::<Option<usize>, PatternErrorKind>(None) && new_caps == old_caps,
        Outcome::Found(e, c) => r == Ok::<Option<usize>, PatternErrorKind>(Some(e as usize)) && 0
            <= e <= usize::MAX && new_caps == c,
    }
}

/// Facts carried by every matcher result: a match ends within the
/// subject at or after where it started, with well-formed slots, and a
/// back-reference error names a single digit.
pub open spec fn found_ok(
    r: Result<Option<usize>, PatternErrorKind>,
    s: int,
    n: int,
    caps: Seq<CaptureSlot>,
) -> bool {
    &&& (r matches Ok(Some(e)) ==> s <= e <= n && caps_wf(caps, e as int, n))
    &&& (r matches Err(PatternErrorKind::InvalidCaptureIndex(d)) ==> d <= 9)
}

/// Control flow for the tail continuation of the matching loop.
pub enum MatchStep {
    /// A final answer for the current position.
    Done(Option<usize>),
    /// Continue matching at `(next_s, next_p)` in the same frame.
    Tail { next_s: usize, next_p: usize },
}

/// Does the single-byte element `pat[p..ep]` match `src[s]`?
fn singlematch(src: &[u8], pat: &[u8], s: usize, p: usize, ep: usize) -> (r: bool)
    requires
        class_end_spec(pat@, p as int) == Ok::<int, PatternErrorKind>(ep as int),
    ensures
        r == singlematch_spec(src@, pat@, s as int, p as int, ep as int),
{
    proof {
        lemma_class_end(pat@, p as int);
    }
    if s >= src.len() {
        return false;
    }
    let c = src[s];
    let pc = pat[p];
    if pc == 46 {
        true
    } else if pc == L_ESC {
        match_class(c, pat[p + 1])
    } else if pc == 91 {
        match_bracket_class(c, pat, p, ep - 1)
    } else {
        pc == c
    }
}

/// One matcher call: checks the recursion budget, then runs the loop.
fn do_match(
    src: &[u8],
    pat: &[u8],
    caps: &mut Vec<CaptureSlot>,
    depth: usize,
    s: usize,
    p: usize,
) -> (r: Result<Option<usize>, PatternErrorKind>)
    requires
        s <= src@.len(),
        p <= pat@.len(),
        caps_wf(old(caps)@, s as int, src@.len() as int),
    ensures
        outcome_rel(
            r,
            do_match_spec(src@, pat@, s as int, p as int, old(caps)@, depth as nat),
            old(caps)@,
            final(caps)@,
        ),
        found_ok(r, s as int, src@.len() as int, final(caps)@),
    decreases depth, 2 * rest_len(pat@, p as int) + 4, 0int,
{
    if depth == 0 {
        return Err(PatternErrorKind::TooComplex);
    }
    do_match_body(src, pat, caps, depth - 1, s, p)
}

/// The matching loop, with tail continuation for single elements.
fn do_match_body(
    src: &[u8],
    pat: &[u8],
    caps: &mut Vec<CaptureSlot>,
    depth: usize,
    s0: usize,
    p0: usize,
) -> (r: Result<Option<usize>, PatternErrorKind>)
    requires
        s0 <= src@.len(),
        p0 <= pat@.len(),
        caps_wf(old(caps)@, s0 as int, src@.len() as int),
    ensures
        outcome_rel(
            r,
            body_spec(src@, pat@, s0 as int, p0 as int, old(caps)@, depth as nat),
            old(caps)@,
            final(caps)@,
        ),
        found_ok(r, s0 as int, src@.len() as int, final(caps)@),
    decreases depth + 1, 2 * rest_len(pat@, p0 as int) + 1, 0int,
{
    let src_len = src.len();
    let pat_len = pat.len();
    let mut s = s0;
    let mut p = p0;
    loop
        invariant
            src_len == src@.len(),
            pat_len == pat@.len(),
            s0 <= s <= src@.len(),
            p0 <= p <= pat@.len(),
            caps@ == old(caps)@,
            caps_wf(caps@, s as int, src@.len() as int),
            body_spec(src@, pat@, s as int, p as int, caps@, depth as nat) == body_spec(
                src@,
                pat@,
                s0 as int,
                p0 as int,
                caps@,
                depth as nat,
            ),
        decreases pat@.len() - p,
    {
        if p >= pat.len() {
            return Ok(Some(s));
        }
        let c = pat[p];
        if c == 40 {
            if p + 1 < pat.len() && pat[p + 1] == 41 {
                return start_position_capture(src, pat, caps, depth, s, p + 2);
            } else {
                return start_capture(src, pat, caps, depth, s, p + 1);
            }
        } else if c == 41 {
            return end_capture(src, pat, caps, depth, s, p + 1);
        } else if c == 36 && p + 1 == pat.len() {
            return Ok(
                if s == src.len() {
                    Some(s)
                } else {
                    None
                },
            );
        } else if c == L_ESC {
            if p + 1 >= pat.len() {
                return Err(PatternErrorKind::EndsWithPercent);
            }
            let next = pat[p + 1];
            if next == 98 {
                match match_balance(src, pat, s, p + 2) {
                    Err(k) => {
                        return Err(k);
                    },
                    Ok(None) => {
                        return Ok(None);
                    },
                    Ok(Some(end)) => {
                        proof {
                            lemma_caps_wf_mono(caps@, s as int, end as int, src@.len() as int);
                        }
                        s = end;
                        p = p + 4;
                    },
                }
            } else if next == 102 {
                if !(p + 2 < pat.len() && pat[p + 2] == 91) {
                    return Err(PatternErrorKind::MissingFrontierBracket);
                }
                proof {
                    lemma_class_end(pat@, p + 2);
                }
                let ep = match class_end(pat, p + 2) {
                    Ok(e) => e,
                    Err(k) => {
                        return Err(k);
                    },
                };
                let previous = if s == 0 {
                    0u8
                } else {
                    src[s - 1]
                };
                let current = if s < src.len() {
                    src[s]
                } else {
                    0u8
                };
                if !match_bracket_class(previous, pat, p + 2, ep - 1) && match_bracket_class(
                    current,
                    pat,
                    p + 2,
                    ep - 1,
                ) {
                    p = ep;
                } else {
                    return Ok(None);
                }
            } else if 48 <= next && next <= 57 {
                match match_capture(src, caps, s, next) {
                    Err(k) => {
                        return Err(k);
                    },
                    Ok(None) => {
                        return Ok(None);
                    },
                    Ok(Some(end)) => {
                        proof {
                            lemma_caps_wf_mono(caps@, s as int, end as int, src@.len() as int);
                        }
                        s = end;
                        p = p + 2;
                    },
                }
            } else {
                match match_single_or_expand(src, pat, caps, depth, s, p) {
                    Err(k) => {
                        return Err(k);
                    },
                    Ok(MatchStep::Done(end)) => {
                        return Ok(end);
                    },
                    Ok(MatchStep::Tail { next_s, next_p }) => {
                        proof {
                            lemma_caps_wf_mono(caps@, s as int, next_s as int, src@.len() as int);
                        }
                        s = next_s;
                        p = next_p;
                    },
                }
            }
        } else {
            match match_single_or_expand(src, pat, caps, depth, s, p) {
                Err(k) => {
                    return Err(k);
                },
                Ok(MatchStep::Done(end)) => {
                    return Ok(end);
                },
                Ok(MatchStep::Tail { next_s, next_p }) => {
                    proof {
                        lemma_caps_wf_mono(caps@, s as int, next_s as int, src@.len() as int);
                    }
                    s = next_s;
                    p = next_p;
                },
            }
        }
    }
}

/// A single element possibly followed by a quantifier; returns either a
/// final answer or the position at which the loop continues.
fn match_single_or_expand(
    src: &[u8],
    pat: &[u8],
    caps: &mut Vec<CaptureSlot>,
    depth: usize,
    s: usize,
    p: usize,
) -> (r: Result<MatchStep, PatternErrorKind>)
    requires
        s <= src@.len(),
        p < pat@.len(),
        caps_wf(old(caps)@, s as int, src@.len() as int),
    ensures
        match r {
            Err(k) => single_spec(src@, pat@, s as int, p as int, old(caps)@, depth as nat)
                == Outcome::Fail(k) && found_ok(
                Err(k),
                s as int,
                src@.len() as int,
                final(caps)@,
            ),
            Ok(MatchStep::Done(o)) => outcome_rel(
                Ok(o),
                single_spec(src@, pat@, s as int, p as int, old(caps)@, depth as nat),
                old(caps)@,
                final(caps)@,
            ) && found_ok(Ok(o), s as int, src@.len() as int, final(caps)@),
            Ok(MatchStep::Tail { next_s, next_p }) => {
                &&& final(caps)@ == old(caps)@
                &&& s <= next_s <= src@.len()
                &&& p < next_p <= pat@.len()
                &&& single_spec(src@, pat@, s as int, p as int, old(caps)@, depth as nat)
                    == body_spec(src@, pat@, next_s as int, next_p as int, old(caps)@, depth as nat)
            },
        },
    decreases depth + 1, 2 * rest_len(pat@, p as int), 0int,
{
    proof {
        lemma_class_end(pat@, p as int);
    }
    let src_len = src.len();
    let pat_len = pat.len();
    let ep = match class_end(pat, p) {
        Ok(e) => e,
        Err(k) => {
            return Err(k);
        },
    };
    let single_ok = singlematch(src, pat, s, p, ep);
    let has_suffix = ep < pat.len();
    let suffix = if has_suffix {
        pat[ep]
    } else {
        0u8
    };
    if !single_ok {
        if has_suffix && (suffix == 42 || suffix == 63 || suffix == 45) {
            return Ok(MatchStep::Tail { next_s: s, next_p: ep + 1 });
        }
        return Ok(MatchStep::Done(None));
    }
    if has_suffix && suffix == 63 {
        proof {
            lemma_caps_wf_mono(caps@, s as int, s + 1, src@.len() as int);
        }
        match do_match(src, pat, caps, depth, s + 1, ep + 1) {
            Err(k) => Err(k),
            Ok(Some(end)) => Ok(MatchStep::Done(Some(end))),
            Ok(None) => Ok(MatchStep::Tail { next_s: s, next_p: ep + 1 }),
        }
    } else if has_suffix && suffix == 43 {
        proof {
            lemma_caps_wf_mono(caps@, s as int, s + 1, src@.len() as int);
        }
        match max_expand(src, pat, caps, depth, s + 1, p, ep) {
            Err(k) => Err(k),
            Ok(r) => Ok(MatchStep::Done(r)),
        }
    } else if has_suffix && suffix == 42 {
        match max_expand(src, pat, caps, depth, s, p, ep) {
            Err(k) => Err(k),
            Ok(r) => Ok(MatchStep::Done(r)),
        }
    } else if has_suffix && suffix == 45 {
        match min_expand(src, pat, caps, depth, s, p, ep) {
            Err(k) => Err(k),
            Ok(r) => Ok(MatchStep::Done(r)),
        }
    } else {
        Ok(MatchStep::Tail { next_s: s + 1, next_p: ep })
    }
}

/// Greedy repetition of the element `pat[p..ep]` starting at `s`.
fn max_expand(
    src: &[u8],
    pat: &[u8],
    caps: &mut Vec<CaptureSlot>,
    depth: usize,
    s: usize,
    p: usize,
    ep: usize,
) -> (r: Result<Option<usize>, PatternErrorKind>)
    requires
        s <= src@.len(),
        ep < pat@.len(),
        class_end_spec(pat@, p as int) == Ok::<int, PatternErrorKind>(ep as int),
        caps_wf(old(caps)@, s as int, src@.len() as int),
    ensures
        outcome_rel(
            r,
            max_expand_from(
                src@,
                pat@,
                s as int,
                count_singles(src@, pat@, s as int, p as int, ep as int),
                p as int,
                ep as int,
                old(caps)@,
                depth as nat,
            ),
            old(caps)@,
            final(caps)@,
        ),
        found_ok(r, s as int, src@.len() as int, final(caps)@),
    decreases depth + 1, 2 * rest_len(pat@, p as int) - 1, 0int,
{
    proof {
        lemma_class_end(pat@, p as int);
    }
    let src_len = src.len();
    let pat_len = pat.len();
    let mut i: usize = 0;
    while singlematch(src, pat, s + i, p, ep)
        invariant
            src_len == src@.len(),
            pat_len == pat@.len(),
            s + i <= src@.len(),
            class_end_spec(pat@, p as int) == Ok::<int, PatternErrorKind>(ep as int),
            count_singles(src@, pat@, s as int, p as int, ep as int) == i + count_singles(
                src@,
                pat@,
                s + i,
                p as int,
                ep as int,
            ),
        decreases src@.len() - (s + i),
    {
        i = i + 1;
    }
    let ghost total = i as int;
    loop
        invariant
            src_len == src@.len(),
            pat_len == pat@.len(),
            s + i <= src@.len(),
            i <= total,
            total == count_singles(src@, pat@, s as int, p as int, ep as int),
            ep < pat@.len(),
            caps@ == old(caps)@,
            caps_wf(caps@, s as int, src@.len() as int),
            max_expand_from(src@, pat@, s as int, total, p as int, ep as int, caps@, depth as nat)
                == max_expand_from(
                src@,
                pat@,
                s as int,
                i as int,
                p as int,
                ep as int,
                caps@,
                depth as nat,
            ),
        decreases i,
    {
        proof {
            lemma_caps_wf_mono(caps@, s as int, s + i, src@.len() as int);
        }
        match do_match(src, pat, caps, depth, s + i, ep + 1) {
            Err(k) => {
                return Err(k);
            },
            Ok(Some(end)) => {
                return Ok(Some(end));
            },
            Ok(None) => {},
        }
        if i == 0 {
            return Ok(None);
        }
        i = i - 1;
    }
}

/// Lazy repetition of the element `pat[p..ep]` starting at `s`.
fn min_expand(
    src: &[u8],
    pat: &[u8],
    caps: &mut Vec<CaptureSlot>,
    depth: usize,
    s0: usize,
    p: usize,
    ep: usize,
) -> (r: Result<Option<usize>, PatternErrorKind>)
    requires
        s0 <= src@.len(),
        ep < pat@.len(),
        class_end_spec(pat@, p as int) == Ok::<int, PatternErrorKind>(ep as int),
        caps_wf(old(caps)@, s0 as int, src@.len() as int),
    ensures
        outcome_rel(
            r,
            min_expand_spec(src@, pat@, s0 as int, p as int, ep as int, old(caps)@, depth as nat),
            old(caps)@,
            final(caps)@,
        ),
        found_ok(r, s0 as int, src@.len() as int, final(caps)@),
    decreases depth + 1, 2 * rest_len(pat@, p as int) - 1, 0int,
{
    proof {
        lemma_class_end(pat@, p as int);
    }
    let src_len = src.len();
    let pat_len = pat.len();
    let mut s = s0;
    loop
        invariant
            src_len == src@.len(),
            pat_len == pat@.len(),
            s0 <= s <= src@.len(),
            ep < pat@.len(),
            class_end_spec(pat@, p as int) == Ok::<int, PatternErrorKind>(ep as int),
            caps@ == old(caps)@,
            caps_wf(caps@, s as int, src@.len() as int),
            min_expand_spec(src@, pat@, s as int, p as int, ep as int, caps@, depth as nat)
                == min_expand_spec(
                src@,
                pat@,
                s0 as int,
                p as int,
                ep as int,
                caps@,
                depth as nat,
            ),
        decreases src@.len() - s,
    {
        match do_match(src, pat, caps, depth, s, ep + 1) {
            Err(k) => {
                return Err(k);
            },
            Ok(Some(end)) => {
                return Ok(Some(end));
            },
            Ok(None) => {},
        }
        if singlematch(src, pat, s, p, ep) {
            proof {
                lemma_caps_wf_mono(caps@, s as int, s + 1, src@.len() as int);
            }
            s = s + 1;
        } else {
            return Ok(None);
        }
    }
}

/// Open a substring capture at `s` and match the rest of the pattern; the
/// slot is rolled back if the rest fails.
fn start_capture(
    src: &[u8],
    pat: &[u8],
    caps: &mut Vec<CaptureSlot>,
    depth: usize,
    s: usize,
    p: usize,
) -> (r: Result<Option<usize>, PatternErrorKind>)
    requires
        s <= src@.len(),
        p <= pat@.len(),
        caps_wf(old(caps)@, s as int, src@.len() as int),
    ensures
        outcome_rel(
            r,
            start_capture_spec(src@, pat@, s as int, p as int, old(caps)@, depth as nat, false),
            old(caps)@,
            final(caps)@,
        ),
        found_ok(r, s as int, src@.len() as int, final(caps)@),
    decreases depth + 1, 0int, 0int,
{
    if caps.len() >= MAX_CAPTURES {
        return Err(PatternErrorKind::TooManyCaptures);
    }
    let ghost before = caps@;
    caps.push(CaptureSlot::Unfinished { start: s });
    proof {
        assert(caps@ == before.push(CaptureSlot::Unfinished { start: s }));
        assert forall|i: int| 0 <= i < caps@.len() implies slot_wf(
            #[trigger] caps@[i],
            s as int,
            src@.len() as int,
        ) by {
            if i < before.len() {
                assert(caps@[i] == before[i]);
            }
        }
    }
    let res = do_match(src, pat, caps, depth, s, p);
    if let Ok(None) = res {
        caps.pop();
        assert(caps@ =~= before);
    }
    res
}

/// Open a position capture `()` at `s` and match the rest of the pattern;
/// the slot is rolled back if the rest fails.
fn start_position_capture(
    src: &[u8],
    pat: &[u8],
    caps: &mut Vec<CaptureSlot>,
    depth: usize,
    s: usize,
    p: usize,
) -> (r: Result<Option<usize>, PatternErrorKind>)
    requires
        s <= src@.len(),
        p <= pat@.len(),
        caps_wf(old(caps)@, s as int, src@.len() as int),
    ensures
        outcome_rel(
            r,
            start_capture_spec(src@, pat@, s as int, p as int, old(caps)@, depth as nat, true),
            old(caps)@,
            final(caps)@,
        ),
        found_ok(r, s as int, src@.len() as int, final(caps)@),
    decreases depth + 1, 0int, 0int,
{
    if caps.len() >= MAX_CAPTURES {
        return Err(PatternErrorKind::TooManyCaptures);
    }
    let ghost before = caps@;
    caps.push(CaptureSlot::Position { at: s });
    proof {
        assert(caps@ == before.push(CaptureSlot::Position { at: s }));
        assert forall|i: int| 0 <= i < caps@.len() implies slot_wf(
            #[trigger] caps@[i],
            s as int,
            src@.len() as int,
        ) by {
            if i < before.len() {
                assert(caps@[i] == before[i]);
            }
        }
    }
    let res = do_match(src, pat, caps, depth, s, p);
    if let Ok(None) = res {
        caps.pop();
        assert(caps@ =~= before);
    }
    res
}

/// Close the most recently opened unfinished capture at `s` and match the
/// rest of the pattern; the slot is restored if the rest fails.
fn end_capture(
    src: &[u8],
    pat: &[u8],
    caps: &mut Vec<CaptureSlot>,
    depth: usize,
    s: usize,
    p: usize,
) -> (r: Result<Option<usize>, PatternErrorKind>)
    requires
        s <= src@.len(),
        p <= pat@.len(),
        caps_wf(old(caps)@, s as int, src@.len() as int),
    ensures
        outcome_rel(
            r,
            end_capture_spec(src@, pat@, s as int, p as int, old(caps)@, depth as nat),
            old(caps)@,
            final(caps)@,
        ),
        found_ok(r, s as int, src@.len() as int, final(caps)@),
    decreases depth + 1, 0int, 0int,
{
    let mut k = caps.len();
    while k > 0 && !matches!(caps[k - 1], CaptureSlot::Unfinished { .. })
        invariant
            k <= caps@.len(),
            last_unfinished(caps@, caps@.len() as int) == last_unfinished(caps@, k as int),
        decreases k,
    {
        k = k - 1;
    }
    if k == 0 {
        return Err(PatternErrorKind::InvalidPatternCapture);
    }
    let idx = k - 1;
    let saved = caps[idx];
    let start = match saved {
        CaptureSlot::Unfinished { start } => start,
        _ => {
            return Err(PatternErrorKind::InvalidPatternCapture);
        },
    };
    let ghost before = caps@;
    proof {
        assert(slot_wf(before[idx as int], s as int, src@.len() as int));
    }
    caps.set(idx, CaptureSlot::Finished { start, end: s });
    proof {
        assert forall|i: int| 0 <= i < caps@.len() implies slot_wf(
            #[trigger] caps@[i],
            s as int,
            src@.len() as int,
        ) by {
            if i != idx {
                assert(caps@[i] == before[i]);
            }
        }
    }
    let res = do_match(src, pat, caps, depth, s, p);
    if let Ok(None) = res {
        caps.set(idx, saved);
        assert(caps@ =~= before);
    }
    res
}

/// Resolve a back-reference `%digit` against the capture slots and match
/// its bytes at `s`.
fn match_capture(src: &[u8], caps: &Vec<CaptureSlot>, s: usize, digit: u8) -> (r: Result<
    Option<usize>,
    PatternErrorKind,
>)
    requires
        48 <= digit <= 57,
        s <= src@.len(),
        caps_wf(caps@, s as int, src@.len() as int),
    ensures
        match match_capture_spec(src@, s as int, digit, caps@) {
            Ok(Some(e)) => r == Ok::<Option<usize>, PatternErrorKind>(Some(e as usize)) && s <= e
                <= src@.len(),
            Ok(None) => r == Ok::<Option<usize>, PatternErrorKind>(None),
            Err(k) => r == Err::<Option<usize>, PatternErrorKind>(k),
        },
        r matches Err(PatternErrorKind::InvalidCaptureIndex(d)) ==> d <= 9,
{
    let idx = (digit - 48) as usize;
    if idx == 0 || idx > caps.len() {
        return Err(PatternErrorKind::InvalidCaptureIndex(digit - 48));
    }
    match caps[idx - 1] {
        CaptureSlot::Finished { start, end } => {
            proof {
                assert(slot_wf(caps@[idx - 1], s as int, src@.len() as int));
            }
            let n = end - start;
            if n <= src.len() - s && bytes_equal_at(src, s, start, n) {
                Ok(Some(s + n))
            } else {
                Ok(None)
            }
        },
        CaptureSlot::Position { .. } => Ok(None),
        CaptureSlot::Unfinished { .. } => Err(PatternErrorKind::InvalidCaptureIndex(digit - 48)),
    }
}

/// Are `src[a..a+n]` and `src[b..b+n]` equal?
fn bytes_equal_at(src: &[u8], a: usize, b: usize, n: usize) -> (r: bool)
    requires
        a + n <= src@.len(),
        b + n <= src@.len(),
    ensures
        r == (src@.subrange(a as int, a + n) == src@.subrange(b as int, b + n)),
{
    let src_len = src.len();
    let mut k: usize = 0;
    while k < n
        invariant
            src_len == src@.len(),
            k <= n,
            a + n <= src@.len(),
            b + n <= src@.len(),
            src@.subrange(a as int, a + k) =~= src@.subrange(b as int, b + k),
        decreases n - k,
    {
        if src[a + k] != src[b + k] {
            assert(src@.subrange(a as int, a + n)[k as int] != src@.subrange(b as int, b + n)[k as int]);
            return false;
        }
        proof {
            assert(src@.subrange(a as int, a + k) == src@.subrange(a as int, a + k + 1).drop_last());
            assert(src@.subrange(b as int, b + k) == src@.subrange(b as int, b + k + 1).drop_last());
            assert(src@.subrange(a as int, a + k + 1) =~= src@.subrange(a as int, a + k).push(src@[a + k]));
            assert(src@.subrange(b as int, b + k + 1) =~= src@.subrange(b as int, b + k).push(src@[b + k]));
        }
        k = k + 1;
    }
    true
}

/// Match a balanced pair `%b<open><close>` whose arguments start at
/// `pat[p]`; returns the index just past the closing byte.
fn match_balance(src: &[u8], pat: &[u8], s: usize, p: usize) -> (r: Result<
    Option<usize>,
    PatternErrorKind,
>)
    requires
        s <= src@.len(),
    ensures
        match match_balance_spec(src@, pat@, s as int, p as int) {
            Ok(Some(e)) => r == Ok::<Option<usize>, PatternErrorKind>(Some(e as usize)) && s < e
                <= src@.len() && p + 1 < pat@.len(),
            Ok(None) => r == Ok::<Option<usize>, PatternErrorKind>(None) && p + 1 < pat@.len(),
            Err(k) => r == Err::<Option<usize>, PatternErrorKind>(k),
        },
{
    if p >= pat.len() || pat.len() - p <= 1 {
        return Err(PatternErrorKind::MissingBalanceArgs);
    }
    if s >= src.len() {
        return Ok(None);
    }
    let open = pat[p];
    let close = pat[p + 1];
    if src[s] != open {
        return Ok(None);
    }
    let mut count: usize = 1;
    let mut i = s + 1;
    while i < src.len()
        invariant
            s < i <= src@.len(),
            1 <= count <= i - s,
            p + 1 < pat@.len(),
            open == pat@[p as int],
            close == pat@[p + 1],
            src@[s as int] == open,
            balance_scan(src@, open, close, s + 1, 1) == balance_scan(
                src@,
                open,
                close,
                i as int,
                count as int,
            ),
        decreases src@.len() - i,
    {
        let c = src[i];
        if c == close {
            count = count - 1;
            if count == 0 {
                assert(balance_scan(src@, open, close, i as int, 1) == Some(i + 1));
                return Ok(Some(i + 1));
            }
        } else if c == open {
            count = count + 1;
        }
        i = i + 1;
    }
    Ok(None)
}


/// The captures reported after a successful match.
fn collect_captures(caps: &Vec<CaptureSlot>) -> (r: Vec<Capture>)
    ensures
        r@ == captures_of(caps@),
{
    let mut out: Vec<Capture> = Vec::new();
    let mut i: usize = 0;
    while i < caps.len()
        invariant
            i <= caps@.len(),
            out@ =~= captures_of(caps@.subrange(0, i as int)),
        decreases caps@.len() - i,
    {
        let c = match caps[i] {
            CaptureSlot::Finished { start, end } => Capture::Span { start, end },
            CaptureSlot::Position { at } => Capture::Position(at),
            CaptureSlot::Unfinished { .. } => Capture::Span { start: 0, end: 0 },
        };
        out.push(c);
        proof {
            assert(caps@.subrange(0, i + 1) =~= caps@.subrange(0, i as int).push(caps@[i as int]));
        }
        i = i + 1;
    }
    assert(caps@.subrange(0, caps@.len() as int) =~= caps@);
    out
}

// ---------------------------------------------------------------------------
// Patterns
// ---------------------------------------------------------------------------

/// Does the pattern begin with the `^` anchor?
pub open spec fn is_anchored_spec(pat: Seq<u8>) -> bool {
    pat.len() > 0 && pat[0] == 94
}

/// The pattern without its anchor.
pub open spec fn pattern_body(pat: Seq<u8>) -> Seq<u8> {
    if is_anchored_spec(pat) {
        pat.subrange(1, pat.len() as int)
    } else {
        pat
    }
}

/// Try the match at every start position from `s` on (only at `s` when
/// anchored); the result is the first match as `(start, end, slots)`.
pub open spec fn find_from(src: Seq<u8>, body: Seq<u8>, anchored: bool, s: int) -> Result<
    Option<(int, int, Seq<CaptureSlot>)>,
    PatternErrorKind,
>
    decreases src.len() - s,
{
    match do_match_spec(src, body, s, 0, Seq::empty(), MAX_CALLS as nat) {
        Outcome::Fail(k) => Err(k),
        Outcome::Found(e, caps) => Ok(Some((s, e, caps))),
        Outcome::NoMatch => if anchored || s >= src.len() {
            Ok(None)
        } else {
            find_from(src, body, anchored, s + 1)
        },
    }
}

/// The first match of `pat` in `src` at or after `init` (clamped to the
/// subject length).
pub open spec fn find_spec(src: Seq<u8>, pat: Seq<u8>, init: int) -> Result<
    Option<(int, int, Seq<CaptureSlot>)>,
    PatternErrorKind,
> {
    let start = if init < src.len() {
        init
    } else {
        src.len() as int
    };
    find_from(src, pattern_body(pat), is_anchored_spec(pat), start)
}

/// A match found from `s` on starts at or after `s`.
pub proof fn lemma_find_from_start(src: Seq<u8>, body: Seq<u8>, anchored: bool, s: int)
    ensures
        find_from(src, body, anchored, s) matches Ok(Some((st, _, _))) ==> st >= s,
    decreases src.len() - s,
{
    if !anchored && s < src.len() {
        lemma_find_from_start(src, body, anchored, s + 1);
    }
}

/// A match found from `init` on starts at or after `init`, when `init`
/// lies within the subject.
pub proof fn lemma_find_spec_start(src: Seq<u8>, pat: Seq<u8>, init: int)
    requires
        init <= src.len(),
    ensures
        find_spec(src, pat, init) matches Ok(Some((st, _, _))) ==> st >= init,
{
    lemma_find_from_start(src, pattern_body(pat), is_anchored_spec(pat), init);
}

/// A validated Lua pattern ready to be matched against a haystack.
#[derive(Debug)]
pub struct Pattern {
    pat: Vec<u8>,
    n_captures: usize,
}

impl View for Pattern {
    type V = Seq<u8>;

    closed spec fn view(&self) -> Seq<u8> {
        self.pat@
    }
}

impl Pattern {
    #[verifier::type_invariant]
    spec fn inv(self) -> bool {
        validate_spec(self.pat@) == Ok::<nat, PatternErrorKind>(self.n_captures as nat)
    }

    /// Validate a Lua pattern and count its explicit captures.
    pub fn compile(pat: &[u8]) -> (r: Result<Pattern, PatternError>)
        ensures
            match validate_spec(pat@) {
                Ok(_) => r matches Ok(p) && p@ == pat@,
                Err(k) => r matches Err(e) && e.kind == k && e.wf(),
            },
    {
        proof {
            lemma_validate_kinds(pat@, 0, 0, 0);
        }
        match validate(pat) {
            Ok(n) => {
                let v = copy_range(pat, 0, pat.len());
                assert(pat@.subrange(0, pat@.len() as int) =~= pat@);
                assert(v@ == pat@);
                assert(validate_spec(v@) == Ok::<nat, PatternErrorKind>(n as nat));
                Ok(Pattern { pat: v, n_captures: n })
            },
            Err(k) => {
                Err(PatternError::new(k))
            },
        }
    }

    /// Number of explicit `(...)` capture groups in the pattern.
    pub fn n_captures(&self) -> (r: usize)
        ensures
            validate_spec(self@) == Ok::<nat, PatternErrorKind>(r as nat),
    {
        proof {
            use_type_invariant(self);
        }
        self.n_captures
    }

    /// Whether the pattern begins with a `^` anchor.
    pub fn is_anchored(&self) -> (r: bool)
        ensures
            r == is_anchored_spec(self@),
    {
        self.pat.len() > 0 && self.pat[0] == 94
    }

    /// Search `haystack` starting at byte offset `init`.  An anchored
    /// pattern is tried only at `init`; otherwise every position from
    /// `init` to the end of the haystack is tried in order.
    pub fn find(&self, haystack: &[u8], init: usize) -> (r: Result<Option<Match>, PatternError>)
        ensures
            match find_spec(haystack@, self@, init as int) {
                Err(k) => r matches Err(e) && e.kind == k && e.wf(),
                Ok(None) => r matches Ok(None),
                Ok(Some((st, en, caps))) => r matches Ok(Some(m)) && m.start == st && m.end == en
                    && m.captures@ == captures_of(caps),
            },
            r matches Ok(Some(m)) ==> match_wf(m, haystack@.len() as int),
            r matches Err(e) ==> (e.kind is TooComplex || e.kind is InvalidCaptureIndex),
            r matches Ok(Some(m)) ==> validate_spec(self@) == Ok::<nat, PatternErrorKind>(m.captures@.len() as nat)
                && forall|i: int| 0 <= i < m.captures@.len() ==> capture_inside(
                #[trigger] m.captures@[i],
                m.start as int,
                m.end as int,
            ),
    {
        let n = haystack.len();
        proof {
            use_type_invariant(self);
            law_compiled_pattern_find(haystack@, self@, init as int, self.n_captures as nat);
        }
        let start = if init < n {
            init
        } else {
            n
        };
        let anchored = self.is_anchored();
        let body = if anchored {
            copy_range(self.pat.as_slice(), 1, self.pat.len())
        } else {
            copy_range(self.pat.as_slice(), 0, self.pat.len())
        };
        assert(self.pat@.subrange(0, self.pat@.len() as int) =~= self.pat@);
        assert(find_spec(haystack@, self@, init as int) == find_from(
            haystack@,
            body@,
            anchored,
            start as int,
        ));
        let mut s_idx = start;
        loop
            invariant
                n == haystack@.len(),
                start <= s_idx <= n,
                body@ == pattern_body(self@),
                anchored == is_anchored_spec(self@),
                find_from(haystack@, body@, anchored, s_idx as int) == find_spec(
                    haystack@,
                    self@,
                    init as int,
                ),
                validate_spec(self@) == Ok::<nat, PatternErrorKind>(self.n_captures as nat),
                find_spec(haystack@, self@, init as int) matches Err(k) ==> (k is TooComplex
                    || k is InvalidCaptureIndex),
                find_spec(haystack@, self@, init as int) matches Ok(Some((st, en, cs))) ==> {
                    &&& cs.len() == self.n_captures as nat
                    &&& forall|i: int| 0 <= i < cs.len() ==> capture_inside(#[trigger] captures_of(cs)[i], st, en)
                },
            decreases n - s_idx,
        {
            let mut caps: Vec<CaptureSlot> = Vec::new();
            match do_match(haystack, body.as_slice(), &mut caps, MAX_CALLS, s_idx, 0) {
                Err(k) => {
                    return Err(PatternError::new(k));
                },
                Ok(Some(end)) => {
                    let captures = collect_captures(&caps);
                    proof {
                        lemma_collect_wf(caps@, end as int, n as int);
                    }
                    return Ok(Some(Match { start: s_idx, end, captures }));
                },
                Ok(None) => {},
            }
            if anchored || s_idx >= n {
                return Ok(None);
            }
            s_idx = s_idx + 1;
        }
    }
}

/// Every capture of a match lies within the subject.
pub open spec fn capture_wf(c: Capture, n: int) -> bool {
    match c {
        Capture::Span { start, end } => start <= end <= n,
        Capture::Position(at) => at <= n,
    }
}

/// A match lies within a subject of length `n`, and so do its captures.
pub open spec fn match_wf(m: Match, n: int) -> bool {
    &&& m.start <= m.end <= n
    &&& forall|i: int| 0 <= i < m.captures@.len() ==> capture_wf(#[trigger] m.captures@[i], n)
}

proof fn lemma_collect_wf(caps: Seq<CaptureSlot>, e: int, n: int)
    requires
        0 <= n,
        caps_wf(caps, e, n),
    ensures
        forall|i: int|
            0 <= i < caps.len() ==> capture_wf(
                #[trigger] captures_of(caps)[i],
                n,
            ),
{
    assert forall|i: int| 0 <= i < caps.len() implies capture_wf(
        #[trigger] captures_of(caps)[i],
        n,
    ) by {
        assert(slot_wf(caps[i], e, n));
        assert(captures_of(caps)[i] == slot_to_capture(caps[i]));
    }
}

proof fn lemma_validate_kinds(pat: Seq<u8>, i: int, n: nat, open: nat)
    requires
        n <= MAX_CAPTURES,
    ensures
        validate_from(pat, i, n, open) matches Err(k) ==> !(k is InvalidCaptureIndex),
        validate_from(pat, i, n, open) matches Ok(m) ==> m <= MAX_CAPTURES,
    decreases pat.len() - i,
{
    if 0 <= i < pat.len() {
        if pat[i] == L_ESC {
            if i + 1 < pat.len() {
                if pat[i + 1] == 98 {
                    if i + 3 < pat.len() {
                        lemma_validate_kinds(pat, i + 4, n, open);
                    }
                } else if pat[i + 1] == 102 {
                    lemma_class_end(pat, i + 2);
                    if let Ok(e) = class_end_spec(pat, i + 2) {
                        if i < e <= pat.len() {
                            lemma_validate_kinds(pat, e, n, open);
                        }
                    }
                } else {
                    lemma_validate_kinds(pat, i + 2, n, open);
                }
            }
        } else if pat[i] == 91 {
            lemma_class_end(pat, i);
            if let Ok(e) = class_end_spec(pat, i) {
                if i < e <= pat.len() {
                    lemma_validate_kinds(pat, e, n, open);
                }
            }
        } else if pat[i] == 40 {
            if n < MAX_CAPTURES {
                lemma_validate_kinds(pat, i + 1, n + 1, open + 1);
            }
        } else if pat[i] == 41 {
            if open > 0 {
                lemma_validate_kinds(pat, i + 1, n, (open - 1) as nat);
            }
        } else {
            lemma_validate_kinds(pat, i + 1, n, open);
        }
    }
}

// ---------------------------------------------------------------------------
// Laws
// ---------------------------------------------------------------------------

/// A class letter the matcher knows (`a c d g l p s u w x z`).
pub open spec fn is_class_letter(l: u8) -> bool {
    l == 97 || l == 99 || l == 100 || l == 103 || l == 108 || l == 112 || l == 115 || l == 117
        || l == 119 || l == 120 || l == 122
}

/// An upper-case class letter is the complement of its lower-case class:
/// `%A` matches exactly the bytes `%a` does not.
pub proof fn law_class_complement(c: u8, l: u8)
    requires
        is_class_letter(l),
    ensures
        class_matches(c, (l - 32) as u8) == !class_matches(c, l),
{
}

/// The empty pattern matches the empty string at the (clamped) start
/// offset, with no captures.
pub proof fn law_empty_pattern_matches_at_start(src: Seq<u8>, init: int)
    requires
        0 <= init,
    ensures
        find_spec(src, Seq::empty(), init) == Ok::<
            Option<(int, int, Seq<CaptureSlot>)>,
            PatternErrorKind,
        >(Some((
            if init < src.len() {
                init
            } else {
                src.len() as int
            },
            if init < src.len() {
                init
            } else {
                src.len() as int
            },
            Seq::empty(),
        ))),
{
    let start = if init < src.len() {
        init
    } else {
        src.len() as int
    };
    assert(pattern_body(Seq::<u8>::empty()) =~= Seq::<u8>::empty());
    assert(do_match_spec(src, Seq::empty(), start, 0, Seq::empty(), MAX_CALLS as nat)
        == Outcome::Found(start, Seq::<CaptureSlot>::empty()));
}

/// An anchored pattern matches only at the start offset.
pub proof fn law_anchored_match_at_start(src: Seq<u8>, pat: Seq<u8>, init: int)
    requires
        is_anchored_spec(pat),
        0 <= init <= src.len(),
    ensures
        find_spec(src, pat, init) matches Ok(Some((st, _, _))) ==> st == init,
{
}


/// What matching the pattern gives at the start position `p` of `src`.
pub open spec fn attempt_at(src: Seq<u8>, pat: Seq<u8>, p: int) -> Outcome {
    do_match_spec(src, pattern_body(pat), p, 0, Seq::empty(), MAX_CALLS as nat)
}

proof fn lemma_find_from_first(src: Seq<u8>, pat: Seq<u8>, s: int)
    requires
        0 <= s <= src.len(),
    ensures
        find_from(src, pattern_body(pat), is_anchored_spec(pat), s) matches Ok(Some((st, en, caps))) ==> {
            &&& s <= st <= src.len()
            &&& attempt_at(src, pat, st) == Outcome::Found(en, caps)
            &&& forall|p: int| s <= p < st ==> #[trigger] attempt_at(src, pat, p) is NoMatch
            &&& is_anchored_spec(pat) ==> st == s
        },
        find_from(src, pattern_body(pat), is_anchored_spec(pat), s) matches Ok(None) ==> forall|p: int|
            s <= p <= src.len() && (!is_anchored_spec(pat) || p == s) ==> #[trigger] attempt_at(src, pat, p) is NoMatch,
    decreases src.len() - s,
{
    if !is_anchored_spec(pat) && s < src.len() && attempt_at(src, pat, s) is NoMatch {
        lemma_find_from_first(src, pat, s + 1);
    }
}

/// A match that `find` reports is the first one: it starts at or after
/// the (clamped) start offset, matches there, and no earlier start from
/// that offset matches (an anchored pattern is tried at the offset
/// alone).  When `find` reports none, no start from the offset on (the
/// offset alone, for an anchored pattern) matches.
pub proof fn law_find_is_first(src: Seq<u8>, pat: Seq<u8>, init: int)
    requires
        0 <= init,
    ensures
        ({
            let i0 = if init < src.len() {
                init
            } else {
                src.len() as int
            };
            &&& find_spec(src, pat, init) matches Ok(Some((st, en, caps))) ==> {
                &&& i0 <= st <= src.len()
                &&& attempt_at(src, pat, st) == Outcome::Found(en, caps)
                &&& forall|p: int| i0 <= p < st ==> #[trigger] attempt_at(src, pat, p) is NoMatch
                &&& is_anchored_spec(pat) ==> st == i0
            }
            &&& find_spec(src, pat, init) matches Ok(None) ==> forall|p: int|
                i0 <= p <= src.len() && (!is_anchored_spec(pat) || p == i0) ==> #[trigger] attempt_at(
                    src,
                    pat,
                    p,
                ) is NoMatch
        }),
{
    let i0 = if init < src.len() {
        init
    } else {
        src.len() as int
    };
    lemma_find_from_first(src, pat, i0);
}


/// Does the slot lie within `lo..=s` (a closed one with its start before
/// its end)?
pub open spec fn slot_inside(c: CaptureSlot, lo: int, s: int) -> bool {
    match c {
        CaptureSlot::Unfinished { start } => lo <= start <= s,
        CaptureSlot::Position { at } => lo <= at <= s,
        CaptureSlot::Finished { start, end } => lo <= start <= end <= s,
    }
}

/// Do all the slots lie within `lo..=s`?
pub open spec fn slots_inside(caps: Seq<CaptureSlot>, lo: int, s: int) -> bool {
    forall|i: int| 0 <= i < caps.len() ==> slot_inside(#[trigger] caps[i], lo, s)
}

/// A match found from `s` ends between `s` and `n`, with its slots within
/// `lo` and its end.
pub open spec fn found_inside(o: Outcome, lo: int, s: int, n: int) -> bool {
    o matches Outcome::Found(e, c) ==> s <= e <= n && slots_inside(c, lo, e)
}

proof fn lemma_slots_inside_mono(caps: Seq<CaptureSlot>, lo: int, s: int, s2: int)
    requires
        slots_inside(caps, lo, s),
        s <= s2,
    ensures
        slots_inside(caps, lo, s2),
{
    assert forall|i: int| 0 <= i < caps.len() implies slot_inside(#[trigger] caps[i], lo, s2) by {
        assert(slot_inside(caps[i], lo, s));
    }
}

proof fn lemma_balance_scan_bounds(src: Seq<u8>, open: u8, close: u8, i: int, count: int)
    ensures
        balance_scan(src, open, close, i, count) matches Some(e) ==> i < e <= src.len(),
    decreases src.len() - i,
{
    if 0 <= i < src.len() {
        if src[i] == close {
            if count - 1 != 0 {
                lemma_balance_scan_bounds(src, open, close, i + 1, count - 1);
            }
        } else if src[i] == open {
            lemma_balance_scan_bounds(src, open, close, i + 1, count + 1);
        } else {
            lemma_balance_scan_bounds(src, open, close, i + 1, count);
        }
    }
}

proof fn lemma_count_singles_bounds(src: Seq<u8>, pat: Seq<u8>, s: int, p: int, ep: int)
    requires
        0 <= s <= src.len(),
    ensures
        0 <= count_singles(src, pat, s, p, ep) <= src.len() - s,
    decreases src.len() - s,
{
    if singlematch_spec(src, pat, s, p, ep) {
        lemma_count_singles_bounds(src, pat, s + 1, p, ep);
    }
}

proof fn lemma_last_unfinished_range(caps: Seq<CaptureSlot>, k: int)
    requires
        k <= caps.len(),
    ensures
        last_unfinished(caps, k) matches Some(i) ==> 0 <= i < k && caps[i] is Unfinished,
    decreases k,
{
    if k > 0 && !(caps[k - 1] is Unfinished) {
        lemma_last_unfinished_range(caps, k - 1);
    }
}

proof fn lemma_do_match_inside(src: Seq<u8>, pat: Seq<u8>, s: int, p: int, caps: Seq<CaptureSlot>, d: nat, lo: int)
    requires
        0 <= lo <= s <= src.len() <= usize::MAX,
        slots_inside(caps, lo, s),
    ensures
        found_inside(do_match_spec(src, pat, s, p, caps, d), lo, s, src.len() as int),
    decreases d, 2 * rest_len(pat, p) + 4, 0int,
{
    if d > 0 {
        lemma_body_inside(src, pat, s, p, caps, (d - 1) as nat, lo);
    }
}

proof fn lemma_body_inside(src: Seq<u8>, pat: Seq<u8>, s: int, p: int, caps: Seq<CaptureSlot>, d: nat, lo: int)
    requires
        0 <= lo <= s <= src.len() <= usize::MAX,
        slots_inside(caps, lo, s),
    ensures
        found_inside(body_spec(src, pat, s, p, caps, d), lo, s, src.len() as int),
    decreases d + 1, 2 * rest_len(pat, p) + 1, 0int,
{
    if 0 <= p < pat.len() {
        let c = pat[p];
        if c == 40 {
            if p + 1 < pat.len() && pat[p + 1] == 41 {
                lemma_start_capture_inside(src, pat, s, p + 2, caps, d, true, lo);
            } else {
                lemma_start_capture_inside(src, pat, s, p + 1, caps, d, false, lo);
            }
        } else if c == 41 {
            lemma_end_capture_inside(src, pat, s, p + 1, caps, d, lo);
        } else if c == 36 && p + 1 == pat.len() {
        } else if c == L_ESC {
            if p + 1 < pat.len() {
                let next = pat[p + 1];
                if next == 98 {
                    if let Ok(Some(e)) = match_balance_spec(src, pat, s, p + 2) {
                        lemma_balance_scan_bounds(src, pat[p + 2], pat[p + 3], s + 1, 1);
                        lemma_slots_inside_mono(caps, lo, s, e);
                        lemma_body_inside(src, pat, e, p + 4, caps, d, lo);
                        lemma_slots_inside_mono(caps, lo, s, e);
                    }
                } else if next == 102 {
                    if p + 2 < pat.len() && pat[p + 2] == 91 {
                        lemma_class_end(pat, p + 2);
                        if let Ok(ep) = class_end_spec(pat, p + 2) {
                            lemma_body_inside(src, pat, s, ep, caps, d, lo);
                        }
                    }
                } else if 48 <= next <= 57 {
                    if let Ok(Some(e)) = match_capture_spec(src, s, next, caps) {
                        let idx = next - 48;
                        assert(slot_inside(caps[idx - 1], lo, s));
                        lemma_slots_inside_mono(caps, lo, s, e);
                        lemma_body_inside(src, pat, e, p + 2, caps, d, lo);
                    }
                } else {
                    lemma_single_inside(src, pat, s, p, caps, d, lo);
                }
            }
        } else {
            lemma_single_inside(src, pat, s, p, caps, d, lo);
        }
    }
}

proof fn lemma_single_inside(src: Seq<u8>, pat: Seq<u8>, s: int, p: int, caps: Seq<CaptureSlot>, d: nat, lo: int)
    requires
        0 <= lo <= s <= src.len() <= usize::MAX,
        slots_inside(caps, lo, s),
    ensures
        found_inside(single_spec(src, pat, s, p, caps, d), lo, s, src.len() as int),
    decreases d + 1, 2 * rest_len(pat, p), 0int,
{
    lemma_class_end(pat, p);
    if let Ok(ep) = class_end_spec(pat, p) {
        let ok = singlematch_spec(src, pat, s, p, ep);
        let has_suffix = ep < pat.len();
        let suf = if has_suffix {
            pat[ep]
        } else {
            0u8
        };
        if !ok {
            if has_suffix && (suf == 42 || suf == 63 || suf == 45) {
                lemma_body_inside(src, pat, s, ep + 1, caps, d, lo);
            }
        } else {
            assert(s < src.len());
            lemma_slots_inside_mono(caps, lo, s, s + 1);
            if has_suffix && suf == 63 {
                lemma_do_match_inside(src, pat, s + 1, ep + 1, caps, d, lo);
                lemma_body_inside(src, pat, s, ep + 1, caps, d, lo);
            } else if has_suffix && suf == 43 {
                lemma_count_singles_bounds(src, pat, s + 1, p, ep);
                lemma_max_expand_inside(src, pat, s + 1, count_singles(src, pat, s + 1, p, ep), p, ep, caps, d, lo);
            } else if has_suffix && suf == 42 {
                lemma_count_singles_bounds(src, pat, s, p, ep);
                lemma_max_expand_inside(src, pat, s, count_singles(src, pat, s, p, ep), p, ep, caps, d, lo);
            } else if has_suffix && suf == 45 {
                lemma_min_expand_inside(src, pat, s, p, ep, caps, d, lo);
            } else {
                lemma_body_inside(src, pat, s + 1, ep, caps, d, lo);
            }
        }
    }
}

proof fn lemma_max_expand_inside(
    src: Seq<u8>,
    pat: Seq<u8>,
    s: int,
    i: int,
    p: int,
    ep: int,
    caps: Seq<CaptureSlot>,
    d: nat,
    lo: int,
)
    requires
        0 <= lo <= s,
        0 <= i,
        s + i <= src.len() <= usize::MAX,
        slots_inside(caps, lo, s),
        class_end_spec(pat, p) == Ok::<int, PatternErrorKind>(ep),
    ensures
        found_inside(max_expand_from(src, pat, s, i, p, ep, caps, d), lo, s, src.len() as int),
    decreases d + 1, 2 * rest_len(pat, p) - 1, i,
{
    lemma_class_end(pat, p);
    lemma_slots_inside_mono(caps, lo, s, s + i);
    lemma_do_match_inside(src, pat, s + i, ep + 1, caps, d, lo);
    if i > 0 {
        lemma_max_expand_inside(src, pat, s, i - 1, p, ep, caps, d, lo);
    }
}

proof fn lemma_min_expand_inside(
    src: Seq<u8>,
    pat: Seq<u8>,
    s: int,
    p: int,
    ep: int,
    caps: Seq<CaptureSlot>,
    d: nat,
    lo: int,
)
    requires
        0 <= lo <= s <= src.len() <= usize::MAX,
        slots_inside(caps, lo, s),
        class_end_spec(pat, p) == Ok::<int, PatternErrorKind>(ep),
    ensures
        found_inside(min_expand_spec(src, pat, s, p, ep, caps, d), lo, s, src.len() as int),
    decreases d + 1, 2 * rest_len(pat, p) - 1, src.len() - s,
{
    lemma_class_end(pat, p);
    lemma_do_match_inside(src, pat, s, ep + 1, caps, d, lo);
    if singlematch_spec(src, pat, s, p, ep) {
        lemma_slots_inside_mono(caps, lo, s, s + 1);
        lemma_min_expand_inside(src, pat, s + 1, p, ep, caps, d, lo);
    }
}

proof fn lemma_start_capture_inside(
    src: Seq<u8>,
    pat: Seq<u8>,
    s: int,
    p: int,
    caps: Seq<CaptureSlot>,
    d: nat,
    position: bool,
    lo: int,
)
    requires
        0 <= lo <= s <= src.len() <= usize::MAX,
        slots_inside(caps, lo, s),
    ensures
        found_inside(start_capture_spec(src, pat, s, p, caps, d, position), lo, s, src.len() as int),
    decreases d + 1, 0int, 0int,
{
    if caps.len() < MAX_CAPTURES {
        let slot = if position {
            CaptureSlot::Position { at: s as usize }
        } else {
            CaptureSlot::Unfinished { start: s as usize }
        };
        let c2 = caps.push(slot);
        assert forall|i: int| 0 <= i < c2.len() implies slot_inside(#[trigger] c2[i], lo, s) by {
            if i < caps.len() {
                assert(c2[i] == caps[i]);
            }
        }
        lemma_do_match_inside(src, pat, s, p, c2, d, lo);
    }
}

proof fn lemma_end_capture_inside(
    src: Seq<u8>,
    pat: Seq<u8>,
    s: int,
    p: int,
    caps: Seq<CaptureSlot>,
    d: nat,
    lo: int,
)
    requires
        0 <= lo <= s <= src.len() <= usize::MAX,
        slots_inside(caps, lo, s),
    ensures
        found_inside(end_capture_spec(src, pat, s, p, caps, d), lo, s, src.len() as int),
    decreases d + 1, 0int, 0int,
{
    lemma_last_unfinished_range(caps, caps.len() as int);
    if let Some(idx) = last_unfinished(caps, caps.len() as int) {
        if let CaptureSlot::Unfinished { start } = caps[idx] {
            assert(slot_inside(caps[idx], lo, s));
            let c2 = caps.update(idx, CaptureSlot::Finished { start, end: s as usize });
            assert forall|i: int| 0 <= i < c2.len() implies slot_inside(#[trigger] c2[i], lo, s) by {
                if i != idx {
                    assert(c2[i] == caps[i]);
                }
            }
            lemma_do_match_inside(src, pat, s, p, c2, d, lo);
        }
    }
}

/// Does the capture lie within `st..=en`?
pub open spec fn capture_inside(c: Capture, st: int, en: int) -> bool {
    match c {
        Capture::Span { start, end } => st <= start <= end <= en,
        Capture::Position(at) => st <= at <= en,
    }
}

/// A match that `find` reports lies within the subject, and each of its
/// captures that was closed or marked lies within the match.
pub proof fn law_find_captures_inside(src: Seq<u8>, pat: Seq<u8>, init: int)
    requires
        0 <= init,
        src.len() <= usize::MAX,
    ensures
        find_spec(src, pat, init) matches Ok(Some((st, en, caps))) ==> {
            &&& st <= en <= src.len()
            &&& forall|i: int|
                0 <= i < caps.len() ==> caps[i] is Unfinished || capture_inside(#[trigger] captures_of(caps)[i], st, en)
        },
{
    let i0 = if init < src.len() {
        init
    } else {
        src.len() as int
    };
    lemma_find_from_first(src, pat, i0);
    if let Ok(Some((st, en, caps))) = find_spec(src, pat, init) {
        assert(slots_inside(Seq::<CaptureSlot>::empty(), st, st));
        lemma_do_match_inside(src, pattern_body(pat), st, 0, Seq::empty(), MAX_CALLS as nat, st);
        assert forall|i: int| 0 <= i < caps.len() implies caps[i] is Unfinished || capture_inside(
            #[trigger] captures_of(caps)[i],
            st,
            en,
        ) by {
            assert(slot_inside(caps[i], st, en));
        }
    }
}


/// The number of captures still open among the slots.
pub open spec fn open_count(caps: Seq<CaptureSlot>) -> nat
    decreases caps.len(),
{
    if caps.len() == 0 {
        0
    } else {
        open_count(caps.drop_last()) + if caps.last() is Unfinished {
            1nat
        } else {
            0nat
        }
    }
}

/// What the matcher can give for a pattern that validated with `n`
/// captures: it fails only on recursion depth or a back-reference, and a
/// match has exactly `n` captures, all closed.
pub open spec fn outcome_after_validation(o: Outcome, n: nat) -> bool {
    match o {
        Outcome::Fail(k) => k is TooComplex || k is InvalidCaptureIndex,
        Outcome::Found(_, c) => c.len() == n && open_count(c) == 0,
        Outcome::NoMatch => true,
    }
}

proof fn lemma_open_count_push(caps: Seq<CaptureSlot>, x: CaptureSlot)
    ensures
        open_count(caps.push(x)) == open_count(caps) + if x is Unfinished {
            1nat
        } else {
            0nat
        },
{
    assert(caps.push(x).drop_last() =~= caps);
}

proof fn lemma_open_count_last_unfinished(caps: Seq<CaptureSlot>, k: int)
    requires
        0 <= k <= caps.len(),
        open_count(caps.take(k)) > 0,
    ensures
        last_unfinished(caps, k) is Some,
    decreases k,
{
    if k > 0 {
        assert(caps.take(k).drop_last() =~= caps.take(k - 1));
        if !(caps[k - 1] is Unfinished) {
            lemma_open_count_last_unfinished(caps, k - 1);
        }
    }
}

proof fn lemma_open_count_close(caps: Seq<CaptureSlot>, idx: int, x: CaptureSlot)
    requires
        0 <= idx < caps.len(),
        caps[idx] is Unfinished,
        !(x is Unfinished),
    ensures
        open_count(caps.update(idx, x)) + 1 == open_count(caps),
    decreases caps.len(),
{
    let c2 = caps.update(idx, x);
    if idx == caps.len() - 1 {
        assert(c2.drop_last() =~= caps.drop_last());
    } else {
        assert(c2.drop_last() =~= caps.drop_last().update(idx, x));
        lemma_open_count_close(caps.drop_last(), idx, x);
    }
}

proof fn lemma_do_match_validated(src: Seq<u8>, pat: Seq<u8>, s: int, p: int, caps: Seq<CaptureSlot>, d: nat, n: nat)
    requires
        0 <= p,
        validate_from(pat, p, caps.len() as nat, open_count(caps)) == Ok::<nat, PatternErrorKind>(n),
    ensures
        outcome_after_validation(do_match_spec(src, pat, s, p, caps, d), n),
    decreases d, 2 * rest_len(pat, p) + 4, 0int,
{
    if d > 0 {
        lemma_body_validated(src, pat, s, p, caps, (d - 1) as nat, n);
    }
}

proof fn lemma_body_validated(src: Seq<u8>, pat: Seq<u8>, s: int, p: int, caps: Seq<CaptureSlot>, d: nat, n: nat)
    requires
        0 <= p,
        validate_from(pat, p, caps.len() as nat, open_count(caps)) == Ok::<nat, PatternErrorKind>(n),
    ensures
        outcome_after_validation(body_spec(src, pat, s, p, caps, d), n),
    decreases d + 1, 2 * rest_len(pat, p) + 1, 0int,
{
    let k = caps.len() as nat;
    let o = open_count(caps);
    if p < pat.len() {
        let c = pat[p];
        if c == 40 {
            assert(validate_from(pat, p + 1, k + 1, o + 1) == Ok::<nat, PatternErrorKind>(n));
            if p + 1 < pat.len() && pat[p + 1] == 41 {
                assert(validate_from(pat, p + 2, k + 1, o) == Ok::<nat, PatternErrorKind>(n));
                lemma_start_capture_validated(src, pat, s, p + 2, caps, d, true, n);
            } else {
                lemma_start_capture_validated(src, pat, s, p + 1, caps, d, false, n);
            }
        } else if c == 41 {
            assert(o != 0);
            lemma_end_capture_validated(src, pat, s, p + 1, caps, d, n);
        } else if c == 36 && p + 1 == pat.len() {
            assert(validate_from(pat, p + 1, k, o) == Ok::<nat, PatternErrorKind>(n));
        } else if c == L_ESC {
            let next = pat[p + 1];
            if next == 98 {
                if let Ok(Some(e)) = match_balance_spec(src, pat, s, p + 2) {
                    lemma_body_validated(src, pat, e, p + 4, caps, d, n);
                }
            } else if next == 102 {
                lemma_class_end(pat, p + 2);
                if let Ok(ep) = class_end_spec(pat, p + 2) {
                    lemma_body_validated(src, pat, s, ep, caps, d, n);
                }
            } else if 48 <= next <= 57 {
                if let Ok(Some(e)) = match_capture_spec(src, s, next, caps) {
                    lemma_body_validated(src, pat, e, p + 2, caps, d, n);
                }
            } else {
                lemma_class_end(pat, p);
                lemma_single_validated(src, pat, s, p, caps, d, n);
            }
        } else {
            lemma_class_end(pat, p);
            lemma_single_validated(src, pat, s, p, caps, d, n);
        }
    }
}

proof fn lemma_single_validated(src: Seq<u8>, pat: Seq<u8>, s: int, p: int, caps: Seq<CaptureSlot>, d: nat, n: nat)
    requires
        0 <= p,
        class_end_spec(pat, p) matches Ok(ep) && validate_from(pat, ep, caps.len() as nat, open_count(caps))
            == Ok::<nat, PatternErrorKind>(n),
    ensures
        outcome_after_validation(single_spec(src, pat, s, p, caps, d), n),
    decreases d + 1, 2 * rest_len(pat, p), 0int,
{
    lemma_class_end(pat, p);
    let k = caps.len() as nat;
    let o = open_count(caps);
    if let Ok(ep) = class_end_spec(pat, p) {
        let has_suffix = ep < pat.len();
        let suf = if has_suffix {
            pat[ep]
        } else {
            0u8
        };
        if has_suffix && (suf == 42 || suf == 63 || suf == 45 || suf == 43) {
            assert(validate_from(pat, ep + 1, k, o) == Ok::<nat, PatternErrorKind>(n));
        }
        let ok = singlematch_spec(src, pat, s, p, ep);
        if !ok {
            if has_suffix && (suf == 42 || suf == 63 || suf == 45) {
                lemma_body_validated(src, pat, s, ep + 1, caps, d, n);
            }
        } else if has_suffix && suf == 63 {
            lemma_do_match_validated(src, pat, s + 1, ep + 1, caps, d, n);
            lemma_body_validated(src, pat, s, ep + 1, caps, d, n);
        } else if has_suffix && suf == 43 {
            lemma_max_expand_validated(src, pat, s + 1, count_singles(src, pat, s + 1, p, ep), p, ep, caps, d, n);
        } else if has_suffix && suf == 42 {
            lemma_max_expand_validated(src, pat, s, count_singles(src, pat, s, p, ep), p, ep, caps, d, n);
        } else if has_suffix && suf == 45 {
            lemma_min_expand_validated(src, pat, s, p, ep, caps, d, n);
        } else {
            lemma_body_validated(src, pat, s + 1, ep, caps, d, n);
        }
    }
}

proof fn lemma_max_expand_validated(
    src: Seq<u8>,
    pat: Seq<u8>,
    s: int,
    i: int,
    p: int,
    ep: int,
    caps: Seq<CaptureSlot>,
    d: nat,
    n: nat,
)
    requires
        0 <= p,
        class_end_spec(pat, p) == Ok::<int, PatternErrorKind>(ep),
        validate_from(pat, ep + 1, caps.len() as nat, open_count(caps)) == Ok::<nat, PatternErrorKind>(n),
    ensures
        outcome_after_validation(max_expand_from(src, pat, s, i, p, ep, caps, d), n),
    decreases d + 1, 2 * rest_len(pat, p) - 1, i,
{
    lemma_class_end(pat, p);
    lemma_do_match_validated(src, pat, s + i, ep + 1, caps, d, n);
    if i > 0 {
        lemma_max_expand_validated(src, pat, s, i - 1, p, ep, caps, d, n);
    }
}

proof fn lemma_min_expand_validated(
    src: Seq<u8>,
    pat: Seq<u8>,
    s: int,
    p: int,
    ep: int,
    caps: Seq<CaptureSlot>,
    d: nat,
    n: nat,
)
    requires
        0 <= p,
        class_end_spec(pat, p) == Ok::<int, PatternErrorKind>(ep),
        validate_from(pat, ep + 1, caps.len() as nat, open_count(caps)) == Ok::<nat, PatternErrorKind>(n),
    ensures
        outcome_after_validation(min_expand_spec(src, pat, s, p, ep, caps, d), n),
    decreases d + 1, 2 * rest_len(pat, p) - 1, src.len() - s,
{
    lemma_class_end(pat, p);
    lemma_do_match_validated(src, pat, s, ep + 1, caps, d, n);
    if singlematch_spec(src, pat, s, p, ep) {
        lemma_min_expand_validated(src, pat, s + 1, p, ep, caps, d, n);
    }
}

proof fn lemma_start_capture_validated(
    src: Seq<u8>,
    pat: Seq<u8>,
    s: int,
    p: int,
    caps: Seq<CaptureSlot>,
    d: nat,
    position: bool,
    n: nat,
)
    requires
        0 <= p,
        caps.len() < MAX_CAPTURES,
        validate_from(pat, p, caps.len() as nat + 1, open_count(caps) + if position {
            0nat
        } else {
            1nat
        }) == Ok::<nat, PatternErrorKind>(n),
    ensures
        outcome_after_validation(start_capture_spec(src, pat, s, p, caps, d, position), n),
    decreases d + 1, 0int, 0int,
{
    let slot = if position {
        CaptureSlot::Position { at: s as usize }
    } else {
        CaptureSlot::Unfinished { start: s as usize }
    };
    lemma_open_count_push(caps, slot);
    lemma_do_match_validated(src, pat, s, p, caps.push(slot), d, n);
}

proof fn lemma_end_capture_validated(
    src: Seq<u8>,
    pat: Seq<u8>,
    s: int,
    p: int,
    caps: Seq<CaptureSlot>,
    d: nat,
    n: nat,
)
    requires
        0 <= p,
        open_count(caps) > 0,
        validate_from(pat, p, caps.len() as nat, (open_count(caps) - 1) as nat) == Ok::<nat, PatternErrorKind>(n),
    ensures
        outcome_after_validation(end_capture_spec(src, pat, s, p, caps, d), n),
    decreases d + 1, 0int, 0int,
{
    assert(caps.take(caps.len() as int) =~= caps);
    lemma_open_count_last_unfinished(caps, caps.len() as int);
    lemma_last_unfinished_range(caps, caps.len() as int);
    if let Some(idx) = last_unfinished(caps, caps.len() as int) {
        if let CaptureSlot::Unfinished { start } = caps[idx] {
            let x = CaptureSlot::Finished { start, end: s as usize };
            lemma_open_count_close(caps, idx, x);
            lemma_do_match_validated(src, pat, s, p, caps.update(idx, x), d, n);
        }
    }
}


proof fn lemma_bracket_close_shift(pat: Seq<u8>, i: int)
    requires
        0 <= i,
        pat.len() >= 1,
    ensures
        bracket_close(pat.subrange(1, pat.len() as int), i) == match bracket_close(pat, i + 1) {
            Ok(e) => Ok::<int, PatternErrorKind>(e - 1),
            Err(k) => Err(k),
        },
    decreases pat.len() - i,
{
    let b = pat.subrange(1, pat.len() as int);
    if i < b.len() {
        assert(b[i] == pat[i + 1]);
        if b[i] != 93 {
            if b[i] == L_ESC && i + 1 < b.len() {
                lemma_bracket_close_shift(pat, i + 2);
            } else {
                lemma_bracket_close_shift(pat, i + 1);
            }
        }
    }
}

proof fn lemma_class_end_shift(pat: Seq<u8>, i: int)
    requires
        0 <= i,
        pat.len() >= 1,
    ensures
        class_end_spec(pat.subrange(1, pat.len() as int), i) == match class_end_spec(pat, i + 1) {
            Ok(e) => Ok::<int, PatternErrorKind>(e - 1),
            Err(k) => Err(k),
        },
{
    let b = pat.subrange(1, pat.len() as int);
    if i < b.len() {
        assert(b[i] == pat[i + 1]);
        if i + 1 < b.len() {
            assert(b[i + 1] == pat[i + 2]);
        }
        if i + 2 < b.len() {
            assert(b[i + 2] == pat[i + 3]);
        }
        let i1 = i + 1;
        let i2 = if i1 < b.len() && b[i1] == 94 {
            i1 + 1
        } else {
            i1
        };
        let i3 = if i2 < b.len() && b[i2] == 93 {
            i2 + 1
        } else {
            i2
        };
        lemma_bracket_close_shift(pat, i3);
    }
}

proof fn lemma_validate_shift(pat: Seq<u8>, i: int, k: nat, o: nat)
    requires
        0 <= i,
        pat.len() >= 1,
    ensures
        validate_from(pat.subrange(1, pat.len() as int), i, k, o) == validate_from(pat, i + 1, k, o),
    decreases pat.len() - i,
{
    let b = pat.subrange(1, pat.len() as int);
    if i < b.len() {
        assert(b[i] == pat[i + 1]);
        if i + 1 < b.len() {
            assert(b[i + 1] == pat[i + 2]);
        }
        if i + 2 < b.len() {
            assert(b[i + 2] == pat[i + 3]);
        }
        if b[i] == L_ESC {
            if i + 1 < b.len() {
                if b[i + 1] == 98 {
                    if i + 3 < b.len() {
                        lemma_validate_shift(pat, i + 4, k, o);
                    }
                } else if b[i + 1] == 102 {
                    if i + 2 < b.len() && b[i + 2] == 91 {
                        lemma_class_end_shift(pat, i + 2);
                        if let Ok(e) = class_end_spec(b, i + 2) {
                            if i < e <= b.len() {
                                lemma_validate_shift(pat, e, k, o);
                            }
                        }
                    }
                } else {
                    lemma_validate_shift(pat, i + 2, k, o);
                }
            }
        } else if b[i] == 91 {
            lemma_class_end_shift(pat, i);
            if let Ok(e) = class_end_spec(b, i) {
                if i < e <= b.len() {
                    lemma_validate_shift(pat, e, k, o);
                }
            }
        } else if b[i] == 40 {
            if k < MAX_CAPTURES {
                lemma_validate_shift(pat, i + 1, k + 1, o + 1);
            }
        } else if b[i] == 41 {
            if o != 0 {
                lemma_validate_shift(pat, i + 1, k, (o - 1) as nat);
            }
        } else {
            lemma_validate_shift(pat, i + 1, k, o);
        }
    }
}

proof fn lemma_find_from_validated(src: Seq<u8>, body: Seq<u8>, anchored: bool, s: int, n: nat)
    requires
        validate_from(body, 0, 0, 0) == Ok::<nat, PatternErrorKind>(n),
    ensures
        find_from(src, body, anchored, s) matches Err(k) ==> (k is TooComplex || k is InvalidCaptureIndex),
        find_from(src, body, anchored, s) matches Ok(Some((_, _, caps))) ==> caps.len() == n && open_count(caps) == 0,
    decreases src.len() - s,
{
    assert(open_count(Seq::<CaptureSlot>::empty()) == 0);
    lemma_do_match_validated(src, body, s, 0, Seq::empty(), MAX_CALLS as nat, n);
    if !anchored && s < src.len() {
        lemma_find_from_validated(src, body, anchored, s + 1, n);
    }
}

/// Every syntax error of a pattern is caught when it is compiled: a
/// pattern that compiled with `n` captures fails in `find` only for
/// recursion depth ("pattern too complex") or a back-reference ("invalid
/// capture index"), and a match it finds has exactly `n` captures, each
/// lying within the match.
pub proof fn law_compiled_pattern_find(src: Seq<u8>, pat: Seq<u8>, init: int, n: nat)
    requires
        validate_spec(pat) == Ok::<nat, PatternErrorKind>(n),
        0 <= init,
        src.len() <= usize::MAX,
    ensures
        find_spec(src, pat, init) matches Err(k) ==> (k is TooComplex || k is InvalidCaptureIndex),
        find_spec(src, pat, init) matches Ok(Some((st, en, caps))) ==> {
            &&& caps.len() == n
            &&& forall|i: int| 0 <= i < caps.len() ==> capture_inside(#[trigger] captures_of(caps)[i], st, en)
        },
{
    let body = pattern_body(pat);
    if is_anchored_spec(pat) {
        assert(validate_from(pat, 0, 0, 0) == validate_from(pat, 1, 0, 0));
        lemma_validate_shift(pat, 0, 0, 0);
    }
    assert(validate_from(body, 0, 0, 0) == Ok::<nat, PatternErrorKind>(n));
    let i0 = if init < src.len() {
        init
    } else {
        src.len() as int
    };
    lemma_find_from_validated(src, body, is_anchored_spec(pat), i0, n);
    law_find_captures_inside(src, pat, init);
    if let Ok(Some((st, en, caps))) = find_spec(src, pat, init) {
        assert forall|i: int| 0 <= i < caps.len() implies !(caps[i] is Unfinished) by {
            lemma_open_count_zero(caps, i);
        }
    }
}

proof fn lemma_open_count_zero(caps: Seq<CaptureSlot>, i: int)
    requires
        open_count(caps) == 0,
        0 <= i < caps.len(),
    ensures
        !(caps[i] is Unfinished),
    decreases caps.len(),
{
    if i < caps.len() - 1 {
        lemma_open_count_zero(caps.drop_last(), i);
    }
}


/// At the end of the subject a frontier `%f[set]` reads the byte 0 as the
/// current byte: a pattern made of one frontier, tried at the end, matches
/// (the empty string there) exactly when the last byte of the subject (0
/// for an empty subject) is not in the set and 0 is.
pub proof fn law_frontier_at_end(src: Seq<u8>, pat: Seq<u8>)
    requires
        pat.len() >= 3,
        pat[0] == L_ESC,
        pat[1] == 102,
        pat[2] == 91,
        class_end_spec(pat, 2) == Ok::<int, PatternErrorKind>(pat.len() as int),
    ensures
        ({
            let n = src.len() as int;
            let prev = if n > 0 {
                src[n - 1]
            } else {
                0u8
            };
            find_spec(src, pat, n) == if !bracket_matches(prev, pat, 2, pat.len() - 1) && bracket_matches(
                0u8,
                pat,
                2,
                pat.len() - 1,
            ) {
                Ok::<Option<(int, int, Seq<CaptureSlot>)>, PatternErrorKind>(Some((n, n, Seq::empty())))
            } else {
                Ok::<Option<(int, int, Seq<CaptureSlot>)>, PatternErrorKind>(None)
            }
        }),
{
    let n = src.len() as int;
    assert(!is_anchored_spec(pat));
    assert(pattern_body(pat) == pat);
    let d = (MAX_CALLS - 1) as nat;
    assert(body_spec(src, pat, n, pat.len() as int, Seq::empty(), d) == Outcome::Found(n, Seq::<CaptureSlot>::empty()));
    assert(do_match_spec(src, pat, n, 0, Seq::empty(), MAX_CALLS as nat) == body_spec(src, pat, n, 0, Seq::empty(), d));
}


/// A frontier `%f[set]` matches the empty string at a position exactly
/// when the byte before it is not in the set and the byte at it is, the
/// subject reading as the byte 0 before its start and past its end.
pub proof fn law_frontier_at(src: Seq<u8>, pat: Seq<u8>, s: int)
    requires
        pat.len() >= 3,
        pat[0] == L_ESC,
        pat[1] == 102,
        pat[2] == 91,
        class_end_spec(pat, 2) == Ok::<int, PatternErrorKind>(pat.len() as int),
        0 <= s <= src.len(),
    ensures
        ({
            let prev = if s > 0 {
                src[s - 1]
            } else {
                0u8
            };
            let cur = if s < src.len() {
                src[s]
            } else {
                0u8
            };
            attempt_at(src, pat, s) == if !bracket_matches(prev, pat, 2, pat.len() - 1) && bracket_matches(
                cur,
                pat,
                2,
                pat.len() - 1,
            ) {
                Outcome::Found(s, Seq::<CaptureSlot>::empty())
            } else {
                Outcome::NoMatch
            }
        }),
{
    assert(!is_anchored_spec(pat));
    assert(pattern_body(pat) == pat);
    let d = (MAX_CALLS - 1) as nat;
    assert(body_spec(src, pat, s, pat.len() as int, Seq::empty(), d) == Outcome::Found(s, Seq::<CaptureSlot>::empty()));
    assert(do_match_spec(src, pat, s, 0, Seq::empty(), MAX_CALLS as nat) == body_spec(src, pat, s, 0, Seq::empty(), d));
}

} // verus!
