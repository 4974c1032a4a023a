//! The Lua `string` library on byte strings.
//!
//! Lua strings are arbitrary byte sequences.  Positions are 1-based and a
//! negative position counts from the end (`-1` is the last byte).  The
//! pattern functions (`find`, `match`, `gmatch`, `gsub`) use the matcher
//! of `lua_pattern`.
use vstd::prelude::*;
use crate::byte_str::{append_all, append_range, copy_range, range_eq};
use crate::search::{
    is_first_occurrence,
    is_last_occurrence,
    memmem_find,
    memmem_rfind,
    occurs_at,
};
use crate::error::{LibError, bad_argument, is_bad_argument_got, is_runtime, is_runtime_at, runtime_error, runtime_error_with};
use crate::env::{GlobalEnv, GlobalValue, GlobalView, Module, install_module, installed};
use crate::decimal::{decimal_string, int_text, int_decimal, push_decimal};
use crate::lua_pattern::{
    Capture,
    Match,
    Pattern,
    PatternErrorKind,
    capture_wf,
    captures_of,
    error_message,
    find_spec,
    is_anchored_spec,
    match_wf,
    validate_spec,
};

verus! {

/// Build the `string` library table, register it as the `string` global,
/// and make it the `__index` of the string metatable (so that
/// `("x"):upper()` works).
pub fn register(env: &mut GlobalEnv) -> (r: Result<(), LibError>)
    ensures
        r is Ok,
        final(env).string_index() == Some(GlobalView::Table(seq![Module::String])),
        forall|n: Seq<char>|
            #[trigger] final(env).global(n) == if n == "string"@ {
                Some(GlobalView::Table(seq![Module::String]))
            } else {
                old(env).global(n)
            },
        forall|n: Seq<char>| #[trigger]
            final(env).has_module_type(n) == (old(env).has_module_type(n) || n == "string"@),
        forall|n: Seq<char>| #[trigger] final(env).loaded(n) == old(env).loaded(n),
        forall|n: Seq<char>| #[trigger]
            final(env).has_userdata_type(n) == old(env).has_userdata_type(n),
        final(env).package_path() == old(env).package_path(),
        final(env).has_module_loader() == old(env).has_module_loader(),
{
    install_module(env, "string", Module::String);
    let mut t: Vec<Module> = Vec::new();
    t.push(Module::String);
    assert(t@ =~= seq![Module::String]);
    env.set_string_index(GlobalValue::Table(t));
    Ok(())
}

// ---------------------------------------------------------------------------
// Positions
// ---------------------------------------------------------------------------

/// The 0-based start offset of the 1-based position `i` in a string of
/// `len` bytes: negative positions count from the end, and the result is
/// clamped to `[0, len]`.
pub open spec fn lua_index_spec(i: int, len: int) -> int {
    if i >= 0 {
        if i == 0 {
            0
        } else if i - 1 < len {
            i - 1
        } else {
            len
        }
    } else if len + i < 0 {
        0
    } else {
        len + i
    }
}

/// The 0-based exclusive end offset of the 1-based inclusive end position
/// `j`, clamped to `[0, len]`.
pub open spec fn lua_index_end_spec(j: int, len: int) -> int {
    if j >= 0 {
        if j < len {
            j
        } else {
            len
        }
    } else if len + j + 1 < 0 {
        0
    } else {
        len + j + 1
    }
}

/// Start offset of the 1-based position `i` (see `lua_index_spec`).
pub fn lua_index(i: i64, len: usize) -> (r: usize)
    ensures
        r as int == lua_index_spec(i as int, len as int),
        r <= len,
{
    if i >= 0 {
        if i == 0 {
            0
        } else if ((i - 1) as u64) < (len as u64) {
            (i - 1) as usize
        } else {
            len
        }
    } else {
        let k: u64 = (-(i + 1)) as u64 + 1;
        if (len as u64) < k {
            0
        } else {
            len - (k as usize)
        }
    }
}

/// Exclusive end offset of the 1-based inclusive position `j` (see
/// `lua_index_end_spec`).
pub fn lua_index_end(j: i64, len: usize) -> (r: usize)
    ensures
        r as int == lua_index_end_spec(j as int, len as int),
        r <= len,
{
    if j >= 0 {
        if (j as u64) < (len as u64) {
            j as usize
        } else {
            len
        }
    } else {
        let k: u64 = (-(j + 1)) as u64;
        if (len as u64) < k {
            0
        } else {
            len - (k as usize)
        }
    }
}

// ---------------------------------------------------------------------------
// Length, bytes, slicing
// ---------------------------------------------------------------------------

/// `string.len`: the number of bytes.
pub fn len(s: &[u8]) -> (r: i64)
    requires
        s@.len() <= i64::MAX,
    ensures
        r == s@.len(),
{
    s.len() as i64
}

/// The bytes `s[start..end]`, or nothing when `start >= end`.
pub open spec fn slice_or_empty(s: Seq<u8>, start: int, end: int) -> Seq<u8> {
    if start >= end {
        Seq::empty()
    } else {
        s.subrange(start, end)
    }
}

/// `string.sub(s, i, j)`: the bytes from position `i` to position `j`
/// (inclusive, default `-1`).
pub open spec fn sub_spec(s: Seq<u8>, i: int, j: int) -> Seq<u8> {
    slice_or_empty(s, lua_index_spec(i, s.len() as int), lua_index_end_spec(j, s.len() as int))
}

/// `string.sub`.
pub fn sub(s: &[u8], i: i64, j: Option<i64>) -> (r: Vec<u8>)
    ensures
        r@ == sub_spec(s@, i as int, (match j {
            Some(j) => j as int,
            None => -1,
        })),
{
    let n = s.len();
    let j = match j {
        Some(j) => j,
        None => -1,
    };
    let start = lua_index(i, n);
    let end = lua_index_end(j, n);
    if start >= end {
        Vec::new()
    } else {
        copy_range(s, start, end)
    }
}

/// `string.byte(s, i, j)`: the numeric codes of the bytes from position
/// `i` (default 1) to `j` (default `i`).
pub fn byte(s: &[u8], i: Option<i64>, j: Option<i64>) -> (r: Vec<i64>)
    ensures
        ({
            let i = match i {
                Some(i) => i,
                None => 1,
            };
            let j = match j {
                Some(j) => j,
                None => i,
            };
            let b = sub_spec(s@, i as int, j as int);
            r@.len() == b.len() && forall|k: int| 0 <= k < b.len() ==> r@[k] == b[k] as i64
        }),
{
    let n = s.len();
    let i = match i {
        Some(i) => i,
        None => 1,
    };
    let j = match j {
        Some(j) => j,
        None => i,
    };
    let start = lua_index(i, n);
    let end = lua_index_end(j, n);
    let mut out: Vec<i64> = Vec::new();
    if start >= end {
        return out;
    }
    let mut k = start;
    while k < end
        invariant
            start <= k <= end <= n,
            n == s@.len(),
            out@.len() == k - start,
            forall|m: int| 0 <= m < k - start ==> out@[m] == s@[start + m] as i64,
        decreases end - k,
    {
        out.push(s[k] as i64);
        k = k + 1;
    }
    out
}

/// ASCII upper case of one byte.
pub open spec fn upper_byte(b: u8) -> u8 {
    if 97 <= b <= 122 {
        (b - 32) as u8
    } else {
        b
    }
}

/// ASCII lower case of one byte.
pub open spec fn lower_byte(b: u8) -> u8 {
    if 65 <= b <= 90 {
        (b + 32) as u8
    } else {
        b
    }
}

/// `string.upper`: ASCII letters to upper case, other bytes unchanged.
pub fn upper(s: &[u8]) -> (r: Vec<u8>)
    ensures
        r@ == s@.map_values(|b: u8| upper_byte(b)),
{
    let n = s.len();
    let mut out: Vec<u8> = Vec::with_capacity(n);
    let mut k: usize = 0;
    while k < n
        invariant
            k <= n,
            n == s@.len(),
            out@ =~= s@.subrange(0, k as int).map_values(|b: u8| upper_byte(b)),
        decreases n - k,
    {
        let b = s[k];
        let u = if 97 <= b && b <= 122 {
            b - 32
        } else {
            b
        };
        out.push(u);
        proof {
            assert(s@.subrange(0, k + 1) =~= s@.subrange(0, k as int).push(b));
        }
        k = k + 1;
    }
    assert(s@.subrange(0, n as int) =~= s@);
    out
}

/// `string.lower`: ASCII letters to lower case, other bytes unchanged.
pub fn lower(s: &[u8]) -> (r: Vec<u8>)
    ensures
        r@ == s@.map_values(|b: u8| lower_byte(b)),
{
    let n = s.len();
    let mut out: Vec<u8> = Vec::with_capacity(n);
    let mut k: usize = 0;
    while k < n
        invariant
            k <= n,
            n == s@.len(),
            out@ =~= s@.subrange(0, k as int).map_values(|b: u8| lower_byte(b)),
        decreases n - k,
    {
        let b = s[k];
        let l = if 65 <= b && b <= 90 {
            b + 32
        } else {
            b
        };
        out.push(l);
        proof {
            assert(s@.subrange(0, k + 1) =~= s@.subrange(0, k as int).push(b));
        }
        k = k + 1;
    }
    assert(s@.subrange(0, n as int) =~= s@);
    out
}

/// `string.reverse`: the bytes in reverse order.
pub fn reverse(s: &[u8]) -> (r: Vec<u8>)
    ensures
        r@ == s@.reverse(),
{
    let n = s.len();
    let mut out: Vec<u8> = Vec::with_capacity(n);
    let mut k: usize = n;
    while k > 0
        invariant
            k <= n,
            n == s@.len(),
            out@.len() == n - k,
            forall|m: int| 0 <= m < n - k ==> out@[m] == s@[n - 1 - m],
        decreases k,
    {
        k = k - 1;
        out.push(s[k]);
    }
    assert(out@ =~= s@.reverse());
    out
}

/// `n` copies of `s` separated by `sep`; nothing for `n <= 0`.
pub open spec fn rep_spec(s: Seq<u8>, sep: Seq<u8>, n: int) -> Seq<u8>
    decreases n,
{
    if n <= 0 {
        Seq::empty()
    } else if n == 1 {
        s
    } else {
        rep_spec(s, sep, n - 1) + sep + s
    }
}

/// `string.rep(s, n, sep)`.
pub fn rep(s: &[u8], n: i64, sep: Option<&[u8]>) -> (r: Vec<u8>)
    ensures
        r@ == rep_spec(s@, (match sep {
            Some(x) => x@,
            None => Seq::empty(),
        }), n as int),
{
    let mut out: Vec<u8> = Vec::new();
    if n <= 0 {
        return out;
    }
    let ghost sep_v: Seq<u8> = match sep {
        Some(x) => x@,
        None => Seq::empty(),
    };
    let mut i: i64 = 0;
    while i < n
        invariant
            0 <= i <= n,
            out@ == rep_spec(s@, sep_v, i as int),
            sep_v == (match sep {
                Some(x) => x@,
                None => Seq::<u8>::empty(),
            }),
        decreases n - i,
    {
        if i > 0 {
            match sep {
                Some(x) => append_all(&mut out, x),
                None => {},
            }
        }
        append_all(&mut out, s);
        proof {
            if i == 0 {
                assert(out@ =~= s@);
            } else {
                assert(out@ =~= rep_spec(s@, sep_v, i as int) + sep_v + s@);
            }
        }
        i = i + 1;
    }
    out
}

// ---------------------------------------------------------------------------
// Prefixes, suffixes and trimming
// ---------------------------------------------------------------------------

/// ASCII white space: space, tab, LF, VT, FF, CR.
pub open spec fn is_ws(b: u8) -> bool {
    b == 32 || b == 9 || b == 10 || b == 11 || b == 12 || b == 13
}

/// ASCII white space: space, tab, LF, VT, FF, CR.
pub fn is_ascii_ws(b: u8) -> (r: bool)
    ensures
        r == is_ws(b),
{
    b == 32 || b == 9 || b == 10 || b == 11 || b == 12 || b == 13
}

/// The first index at or after `i` that holds no white space (or the
/// length).
pub open spec fn skip_ws(s: Seq<u8>, i: int) -> int
    decreases s.len() - i,
{
    if 0 <= i < s.len() && is_ws(s[i]) {
        skip_ws(s, i + 1)
    } else {
        i
    }
}

/// The end of `s[..j]` with trailing white space removed.
pub open spec fn skip_ws_back(s: Seq<u8>, j: int) -> int
    decreases j,
{
    if 0 < j <= s.len() && is_ws(s[j - 1]) {
        skip_ws_back(s, j - 1)
    } else {
        j
    }
}

/// `s` without leading and trailing white space.
pub open spec fn trim_spec(s: Seq<u8>) -> Seq<u8> {
    slice_or_empty(s, skip_ws(s, 0), skip_ws_back(s, s.len() as int))
}

/// `s` without leading white space.
pub open spec fn trim_start_spec(s: Seq<u8>) -> Seq<u8> {
    s.subrange(skip_ws(s, 0), s.len() as int)
}

/// `s` without trailing white space.
pub open spec fn trim_end_spec(s: Seq<u8>) -> Seq<u8> {
    s.subrange(0, skip_ws_back(s, s.len() as int))
}

proof fn lemma_skip_ws_bounds(s: Seq<u8>, i: int)
    requires
        0 <= i <= s.len(),
    ensures
        i <= skip_ws(s, i) <= s.len(),
    decreases s.len() - i,
{
    if i < s.len() && is_ws(s[i]) {
        lemma_skip_ws_bounds(s, i + 1);
    }
}

proof fn lemma_skip_ws_back_bounds(s: Seq<u8>, j: int)
    requires
        0 <= j <= s.len(),
    ensures
        0 <= skip_ws_back(s, j) <= j,
    decreases j,
{
    if 0 < j && is_ws(s[j - 1]) {
        lemma_skip_ws_back_bounds(s, j - 1);
    }
}

/// The first index of `s` holding no white space, or its length.
fn first_non_ws(s: &[u8]) -> (r: usize)
    ensures
        r == skip_ws(s@, 0),
        r <= s@.len(),
{
    let n = s.len();
    let mut i: usize = 0;
    while i < n && is_ascii_ws(s[i])
        invariant
            i <= n,
            n == s@.len(),
            skip_ws(s@, i as int) == skip_ws(s@, 0),
        decreases n - i,
    {
        i = i + 1;
    }
    i
}

/// One past the last index of `s` holding no white space, or 0.
fn end_non_ws(s: &[u8]) -> (r: usize)
    ensures
        r == skip_ws_back(s@, s@.len() as int),
        r <= s@.len(),
{
    let n = s.len();
    let mut j: usize = n;
    while j > 0 && is_ascii_ws(s[j - 1])
        invariant
            j <= n,
            n == s@.len(),
            skip_ws_back(s@, j as int) == skip_ws_back(s@, n as int),
        decreases j,
    {
        j = j - 1;
    }
    j
}

/// `string.trim`: remove leading and trailing ASCII white space.
pub fn trim(s: &[u8]) -> (r: Vec<u8>)
    ensures
        r@ == trim_spec(s@),
{
    let start = first_non_ws(s);
    let end = end_non_ws(s);
    if start >= end {
        Vec::new()
    } else {
        copy_range(s, start, end)
    }
}

/// `string.trim_start`: remove leading ASCII white space.
pub fn trim_start(s: &[u8]) -> (r: Vec<u8>)
    ensures
        r@ == trim_start_spec(s@),
{
    let start = first_non_ws(s);
    copy_range(s, start, s.len())
}

/// `string.trim_end`: remove trailing ASCII white space.
pub fn trim_end(s: &[u8]) -> (r: Vec<u8>)
    ensures
        r@ == trim_end_spec(s@),
{
    let end = end_non_ws(s);
    copy_range(s, 0, end)
}

/// `p` is a prefix of `s`.
pub open spec fn has_prefix(s: Seq<u8>, p: Seq<u8>) -> bool {
    p.len() <= s.len() && s.subrange(0, p.len() as int) == p
}

/// `x` is a suffix of `s`.
pub open spec fn has_suffix(s: Seq<u8>, x: Seq<u8>) -> bool {
    x.len() <= s.len() && s.subrange(s.len() - x.len(), s.len() as int) == x
}

/// `string.starts_with`.
pub fn starts_with(s: &[u8], prefix: &[u8]) -> (r: bool)
    ensures
        r == has_prefix(s@, prefix@),
{
    range_eq(s, 0, prefix)
}

/// `string.ends_with`.
pub fn ends_with(s: &[u8], suffix: &[u8]) -> (r: bool)
    ensures
        r == has_suffix(s@, suffix@),
{
    let n = s.len();
    let m = suffix.len();
    if m > n {
        return false;
    }
    range_eq(s, n - m, suffix)
}

/// `string.strip_prefix`: the rest of `s` after `prefix`, or `None` when
/// `s` does not start with it.
pub fn strip_prefix(s: &[u8], prefix: &[u8]) -> (r: Option<Vec<u8>>)
    ensures
        has_prefix(s@, prefix@) ==> (r matches Some(v) && v@ == s@.subrange(
            prefix@.len() as int,
            s@.len() as int,
        )),
        !has_prefix(s@, prefix@) ==> r is None,
{
    if starts_with(s, prefix) {
        Some(copy_range(s, prefix.len(), s.len()))
    } else {
        None
    }
}

/// `string.strip_suffix`: `s` without `suffix`, or `None` when `s` does
/// not end with it.
pub fn strip_suffix(s: &[u8], suffix: &[u8]) -> (r: Option<Vec<u8>>)
    ensures
        has_suffix(s@, suffix@) ==> (r matches Some(v) && v@ == s@.subrange(
            0,
            s@.len() - suffix@.len(),
        )),
        !has_suffix(s@, suffix@) ==> r is None,
{
    if ends_with(s, suffix) {
        Some(copy_range(s, 0, s.len() - suffix.len()))
    } else {
        None
    }
}

/// `string.trim_prefix`: `s` without `prefix` if it starts with it, else
/// `s` unchanged.
pub fn trim_prefix(s: &[u8], prefix: &[u8]) -> (r: Vec<u8>)
    ensures
        r@ == (if has_prefix(s@, prefix@) {
            s@.subrange(prefix@.len() as int, s@.len() as int)
        } else {
            s@
        }),
{
    match strip_prefix(s, prefix) {
        Some(rest) => rest,
        None => {
            let n = s.len();
            let v = copy_range(s, 0, n);
            assert(s@.subrange(0, n as int) =~= s@);
            v
        },
    }
}

/// `string.trim_suffix`: `s` without `suffix` if it ends with it, else
/// `s` unchanged.
pub fn trim_suffix(s: &[u8], suffix: &[u8]) -> (r: Vec<u8>)
    ensures
        r@ == (if has_suffix(s@, suffix@) {
            s@.subrange(0, s@.len() - suffix@.len())
        } else {
            s@
        }),
{
    match strip_suffix(s, suffix) {
        Some(rest) => rest,
        None => {
            let n = s.len();
            let v = copy_range(s, 0, n);
            assert(s@.subrange(0, n as int) =~= s@);
            v
        },
    }
}

// ---------------------------------------------------------------------------
// Splitting
// ---------------------------------------------------------------------------

/// `string.split_once(s, sep)`: the parts before and after the first
/// occurrence of `sep`, or `None` when it does not occur.  An empty
/// separator splits off an empty first part.
pub fn split_once(s: &[u8], sep: &[u8]) -> (r: Option<(Vec<u8>, Vec<u8>)>)
    ensures
        sep@.len() == 0 ==> (r matches Some((a, b)) && a@ == Seq::<u8>::empty() && b@ == s@),
        sep@.len() > 0 ==> match r {
            Some((a, b)) => is_first_occurrence(s@, sep@, Some(a@.len() as usize)) && a@
                == s@.subrange(0, a@.len() as int) && b@ == s@.subrange(
                (a@.len() + sep@.len()) as int,
                s@.len() as int,
            ),
            None => is_first_occurrence(s@, sep@, None),
        },
{
    if sep.len() == 0 {
        let n = s.len();
        let all = copy_range(s, 0, n);
        assert(s@.subrange(0, n as int) =~= s@);
        return Some((Vec::new(), all));
    }
    match memmem_find(s, sep) {
        Some(pos) => {
            let m = sep.len();
            let n = s.len();
            assert(occurs_at(s@, sep@, pos as int));
            let before = copy_range(s, 0, pos);
            let after = copy_range(s, pos + m, n);
            Some((before, after))
        },
        None => None,
    }
}

/// `string.rsplit_once(s, sep)`: the parts before and after the last
/// occurrence of `sep`, or `None` when it does not occur.  An empty
/// separator splits off an empty last part.
pub fn rsplit_once(s: &[u8], sep: &[u8]) -> (r: Option<(Vec<u8>, Vec<u8>)>)
    ensures
        sep@.len() == 0 ==> (r matches Some((a, b)) && a@ == s@ && b@ == Seq::<u8>::empty()),
        sep@.len() > 0 ==> match r {
            Some((a, b)) => is_last_occurrence(s@, sep@, Some(a@.len() as usize)) && a@
                == s@.subrange(0, a@.len() as int) && b@ == s@.subrange(
                (a@.len() + sep@.len()) as int,
                s@.len() as int,
            ),
            None => is_last_occurrence(s@, sep@, None),
        },
{
    if sep.len() == 0 {
        let n = s.len();
        let all = copy_range(s, 0, n);
        assert(s@.subrange(0, n as int) =~= s@);
        return Some((all, Vec::new()));
    }
    match memmem_rfind(s, sep) {
        Some(pos) => {
            let m = sep.len();
            let n = s.len();
            assert(occurs_at(s@, sep@, pos as int));
            let before = copy_range(s, 0, pos);
            let after = copy_range(s, pos + m, n);
            Some((before, after))
        },
        None => None,
    }
}

/// `string.truncate(s, max_bytes, ellipsis)`: `s` when it fits in
/// `max_bytes`; otherwise its first bytes followed by `ellipsis` so that
/// the whole fits, or just the first `max_bytes` bytes of `ellipsis` when
/// the ellipsis alone does not fit.
pub open spec fn truncate_spec(s: Seq<u8>, max: int, ellipsis: Seq<u8>) -> Seq<u8> {
    if s.len() <= max {
        s
    } else if ellipsis.len() >= max {
        ellipsis.subrange(0, max)
    } else {
        s.subrange(0, max - ellipsis.len()) + ellipsis
    }
}

/// `string.truncate`; a negative `max_bytes` is a bad argument.
pub fn truncate(s: &[u8], max_bytes: i64, ellipsis: Option<&[u8]>) -> (r: Result<Vec<u8>, LibError>)
    ensures
        max_bytes < 0 ==> (r matches Err(e) && is_bad_argument_got(
            e,
            2,
            "truncate"@,
            "non-negative integer"@,
            int_text(max_bytes as int),
        )),
        max_bytes >= 0 ==> (r matches Ok(v) && v@ == truncate_spec(s@, max_bytes as int, (match ellipsis {
            Some(x) => x@,
            None => Seq::empty(),
        }))),
{
    if max_bytes < 0 {
        return Err(bad_argument(2, "truncate", "non-negative integer", decimal_string(max_bytes)));
    }
    let n = s.len();
    if (n as u64) <= (max_bytes as u64) {
        let v = copy_range(s, 0, n);
        assert(s@.subrange(0, n as int) =~= s@);
        return Ok(v);
    }
    let max = max_bytes as usize;
    let empty: [u8; 0] = [];
    let e: &[u8] = match ellipsis {
        Some(x) => x,
        None => &empty,
    };
    assert(e@ == (match ellipsis {
        Some(x) => x@,
        None => Seq::<u8>::empty(),
    }));
    if e.len() >= max {
        return Ok(copy_range(e, 0, max));
    }
    let keep = max - e.len();
    let mut out = copy_range(s, 0, keep);
    append_all(&mut out, e);
    Ok(out)
}

/// The first occurrence of `needle` in `hay` at or after `i`.
pub open spec fn first_occ_from(hay: Seq<u8>, needle: Seq<u8>, i: int) -> Option<int>
    decreases hay.len() - i,
{
    if i < 0 || i + needle.len() > hay.len() {
        None
    } else if occurs_at(hay, needle, i) {
        Some(i)
    } else if i >= hay.len() {
        None
    } else {
        first_occ_from(hay, needle, i + 1)
    }
}

/// `first_occ_from` finds the least occurrence at or after `i`.
pub proof fn lemma_first_occ_from(hay: Seq<u8>, needle: Seq<u8>, i: int)
    requires
        0 <= i,
    ensures
        match first_occ_from(hay, needle, i) {
            Some(p) => i <= p && occurs_at(hay, needle, p) && forall|j: int|
                i <= j < p ==> !#[trigger] occurs_at(hay, needle, j),
            None => forall|j: int| i <= j ==> !#[trigger] occurs_at(hay, needle, j),
        },
    decreases hay.len() - i,
{
    if i + needle.len() <= hay.len() && !occurs_at(hay, needle, i) && i < hay.len() {
        lemma_first_occ_from(hay, needle, i + 1);
    }
}

/// A search in `hay[start..]` gives the first occurrence in `hay` at or
/// after `start`.
proof fn lemma_search_suffix(hay: Seq<u8>, needle: Seq<u8>, start: int, r: Option<usize>)
    requires
        0 <= start <= hay.len(),
        is_first_occurrence(hay.subrange(start, hay.len() as int), needle, r),
    ensures
        first_occ_from(hay, needle, start) == (match r {
            Some(p) => Some(start + p),
            None => None::<int>,
        }),
{
    let sub = hay.subrange(start, hay.len() as int);
    assert forall|j: int| 0 <= j implies #[trigger] occurs_at(sub, needle, j) == occurs_at(
        hay,
        needle,
        start + j,
    ) by {
        if j + needle.len() <= sub.len() {
            assert(sub.subrange(j, j + needle.len()) =~= hay.subrange(
                start + j,
                start + j + needle.len(),
            ));
        }
    }
    lemma_first_occ_from(hay, needle, start);
    match first_occ_from(hay, needle, start) {
        Some(p) => {
            assert(occurs_at(sub, needle, p - start));
            match r {
                Some(q) => {
                    if q + start < p {
                        assert(occurs_at(hay, needle, start + q));
                    }
                    if q + start > p {
                        assert(!occurs_at(sub, needle, p - start));
                    }
                },
                None => {
                    assert(!occurs_at(sub, needle, p - start));
                },
            }
        },
        None => {
            match r {
                Some(q) => {
                    assert(occurs_at(hay, needle, start + q));
                },
                None => {},
            }
        },
    }
}

/// The pieces of `s` from `start` on, split at each occurrence of the
/// non-empty `sep` (searched left to right, without overlap).
pub open spec fn split_pieces(s: Seq<u8>, sep: Seq<u8>, start: int) -> Seq<Seq<u8>>
    decreases s.len() - start,
{
    if start < 0 || start > s.len() || sep.len() == 0 {
        Seq::empty()
    } else {
        match first_occ_from(s, sep, start) {
            Some(p) => if start <= p && p + sep.len() <= s.len() {
                seq![s.subrange(start, p)] + split_pieces(s, sep, p + sep.len())
            } else {
                Seq::empty()
            },
            None => seq![s.subrange(start, s.len() as int)],
        }
    }
}

/// `string.split(s, sep)`: the pieces between occurrences of `sep`
/// (default `,`); an empty separator gives one piece per byte.
pub open spec fn split_spec(s: Seq<u8>, sep: Seq<u8>) -> Seq<Seq<u8>> {
    if sep.len() == 0 {
        Seq::new(s.len(), |i: int| seq![s[i]])
    } else {
        split_pieces(s, sep, 0)
    }
}

/// `string.split`.
pub fn split(s: &[u8], sep_arg: Option<&[u8]>) -> (r: Vec<Vec<u8>>)
    ensures
        ({
            let pieces = split_spec(s@, (match sep_arg {
                Some(x) => x@,
                None => seq![44u8],
            }));
            r@.len() == pieces.len() && forall|k: int| 0 <= k < pieces.len() ==> #[trigger] r@[k]@
                == pieces[k]
        }),
{
    let comma: Vec<u8> = vec![44u8];
    let sep: &[u8] = match sep_arg {
        Some(x) => x,
        None => comma.as_slice(),
    };
    assert(sep@ == (match sep_arg {
        Some(x) => x@,
        None => seq![44u8],
    }));
    let n = s.len();
    let m = sep.len();
    let mut out: Vec<Vec<u8>> = Vec::new();
    if m == 0 {
        let mut i: usize = 0;
        while i < n
            invariant
                i <= n,
                n == s@.len(),
                sep@.len() == 0,
                out@.len() == i,
                forall|k: int| 0 <= k < i ==> #[trigger] out@[k]@ == seq![s@[k]],
            decreases n - i,
        {
            let piece = copy_range(s, i, i + 1);
            assert(s@.subrange(i as int, i + 1) =~= seq![s@[i as int]]);
            out.push(piece);
            i = i + 1;
        }
        return out;
    }
    let ghost whole = split_pieces(s@, sep@, 0);
    let ghost mut acc: Seq<Seq<u8>> = Seq::empty();
    let mut span_start: usize = 0;
    loop
        invariant
            n == s@.len(),
            m == sep@.len(),
            m > 0,
            span_start <= n,
            out@.len() == acc.len(),
            forall|k: int| 0 <= k < acc.len() ==> #[trigger] out@[k]@ == acc[k],
            acc + split_pieces(s@, sep@, span_start as int) == whole,
            whole == split_pieces(s@, sep@, 0),
            sep@ == (match sep_arg {
                Some(x) => x@,
                None => seq![44u8],
            }),
        decreases n - span_start,
    {
        let rest = &s[span_start..n];
        let found = memmem_find(rest, sep);
        proof {
            lemma_search_suffix(s@, sep@, span_start as int, found);
        }
        match found {
            Some(pos) => {
                assert(occurs_at(rest@, sep@, pos as int));
                let piece = copy_range(s, span_start, span_start + pos);
                proof {
                    let p = span_start + pos;
                    assert(split_pieces(s@, sep@, span_start as int) == seq![
                        s@.subrange(span_start as int, p as int),
                    ] + split_pieces(s@, sep@, p + m));
                    assert(acc.push(piece@) + split_pieces(s@, sep@, p + m) =~= acc
                        + split_pieces(s@, sep@, span_start as int));
                    acc = acc.push(piece@);
                }
                out.push(piece);
                span_start = span_start + pos + m;
            },
            None => {
                let piece = copy_range(s, span_start, n);
                proof {
                    assert(split_pieces(s@, sep@, span_start as int) == seq![
                        s@.subrange(span_start as int, n as int),
                    ]);
                    assert(acc.push(piece@) =~= whole);
                    acc = acc.push(piece@);
                }
                out.push(piece);
                return out;
            },
        }
    }
}

// ---------------------------------------------------------------------------
// Lines: indent and dedent
// ---------------------------------------------------------------------------

/// The lines of `s`: the pieces between `\n` bytes.
pub open spec fn lines_of(s: Seq<u8>) -> Seq<Seq<u8>> {
    split_pieces(s, seq![10u8], 0)
}

/// Each line followed by `\n`.
pub open spec fn concat_nl(ls: Seq<Seq<u8>>) -> Seq<u8>
    decreases ls.len(),
{
    if ls.len() == 0 {
        Seq::empty()
    } else {
        concat_nl(ls.drop_last()) + ls.last() + seq![10u8]
    }
}

/// The lines joined by `\n`.
pub open spec fn join_lines(ls: Seq<Seq<u8>>) -> Seq<u8> {
    if ls.len() == 0 {
        Seq::empty()
    } else {
        concat_nl(ls.drop_last()) + ls.last()
    }
}

/// A line without its trailing carriage return, if any.
pub open spec fn strip_cr(l: Seq<u8>) -> Seq<u8> {
    if l.len() > 0 && l.last() == 13 {
        l.drop_last()
    } else {
        l
    }
}

/// Every byte is white space.
pub open spec fn all_ws(c: Seq<u8>) -> bool {
    forall|i: int| 0 <= i < c.len() ==> is_ws(#[trigger] c[i])
}

/// A line of `string.indent`: prefixed unless blank.
pub open spec fn indent_line(l: Seq<u8>, prefix: Seq<u8>) -> Seq<u8> {
    if all_ws(strip_cr(l)) {
        l
    } else {
        prefix + l
    }
}

/// `string.indent(s, prefix)`: every line that is not blank gets `prefix`
/// in front.
pub open spec fn indent_spec(s: Seq<u8>, prefix: Seq<u8>) -> Seq<u8> {
    join_lines(lines_of(s).map_values(|l: Seq<u8>| indent_line(l, prefix)))
}

/// Is every byte of `v` white space?
fn all_ascii_ws(v: &[u8], end: usize) -> (r: bool)
    requires
        end <= v@.len(),
    ensures
        r == all_ws(v@.subrange(0, end as int)),
{
    let mut i: usize = 0;
    while i < end
        invariant
            i <= end <= v@.len(),
            all_ws(v@.subrange(0, i as int)),
        decreases end - i,
    {
        if !is_ascii_ws(v[i]) {
            assert(v@.subrange(0, end as int)[i as int] == v@[i as int]);
            return false;
        }
        i = i + 1;
        assert forall|k: int| 0 <= k < i implies is_ws(#[trigger] v@.subrange(0, i as int)[k]) by {
            if k < i - 1 {
                assert(v@.subrange(0, i as int)[k] == v@.subrange(0, i - 1)[k]);
            }
        }
    }
    true
}

/// The length of a line without its trailing carriage return.
fn content_len(l: &[u8]) -> (r: usize)
    ensures
        r as int == strip_cr(l@).len(),
        l@.subrange(0, r as int) == strip_cr(l@),
{
    let n = l.len();
    if n > 0 && l[n - 1] == 13 {
        assert(l@.subrange(0, n - 1) =~= l@.drop_last());
        n - 1
    } else {
        assert(l@.subrange(0, n as int) =~= l@);
        n
    }
}

/// `string.indent`.
pub fn indent(s: &[u8], prefix: &[u8]) -> (r: Vec<u8>)
    ensures
        r@ == indent_spec(s@, prefix@),
{
    let nl: Vec<u8> = vec![10u8];
    let lines = split(s, Some(nl.as_slice()));
    let ghost ls = lines_of(s@);
    assert(nl@ =~= seq![10u8]);
    assert(split_spec(s@, nl@) == ls);
    assert(lines@.len() == ls.len());
    assert(forall|j: int| 0 <= j < ls.len() ==> #[trigger] lines@[j]@ == ls[j]);
    let ghost mapped = ls.map_values(|l: Seq<u8>| indent_line(l, prefix@));
    assert(lines@.len() == ls.len());
    let n = lines.len();
    let mut out: Vec<u8> = Vec::new();
    if n == 0 {
        return out;
    }
    let mut k: usize = 0;
    while k < n
        invariant
            n == lines@.len(),
            n == ls.len(),
            n > 0,
            k <= n,
            ls == lines_of(s@),
            mapped == ls.map_values(|l: Seq<u8>| indent_line(l, prefix@)),
            forall|j: int| 0 <= j < n ==> #[trigger] lines@[j]@ == ls[j],
            k < n ==> out@ == concat_nl(mapped.subrange(0, k as int)),
            k == n ==> out@ == join_lines(mapped),
        decreases n - k,
    {
        let line = lines[k].as_slice();
        let c = content_len(line);
        let blank = all_ascii_ws(line, c);
        let ghost before = out@;
        if !blank {
            append_all(&mut out, prefix);
        }
        append_all(&mut out, line);
        proof {
            assert(mapped[k as int] == indent_line(ls[k as int], prefix@));
            assert(out@ =~= before + mapped[k as int]);
            assert(mapped.subrange(0, k + 1).drop_last() =~= mapped.subrange(0, k as int));
        }
        if k + 1 < n {
            out.push(10u8);
        } else {
            assert(mapped.subrange(0, k as int) =~= mapped.drop_last());
        }
        k = k + 1;
    }
    out
}

/// Space or tab.
pub open spec fn is_sp_tab(b: u8) -> bool {
    b == 32 || b == 9
}

/// Every byte is a space or a tab.
pub open spec fn all_sp_tab(c: Seq<u8>) -> bool {
    forall|i: int| 0 <= i < c.len() ==> is_sp_tab(#[trigger] c[i])
}

/// The end of the run of spaces and tabs starting at `i`.
pub open spec fn lead_run(c: Seq<u8>, i: int) -> int
    decreases c.len() - i,
{
    if 0 <= i < c.len() && is_sp_tab(c[i]) {
        lead_run(c, i + 1)
    } else {
        i
    }
}

/// The length of the common prefix of `a` and `b` from `k` on.
pub open spec fn common_prefix_len(a: Seq<u8>, b: Seq<u8>, k: int) -> int
    decreases a.len() - k,
{
    if 0 <= k < a.len() && k < b.len() && a[k] == b[k] {
        common_prefix_len(a, b, k + 1)
    } else {
        k
    }
}

/// The leading spaces and tabs of a line's content.
pub open spec fn line_indent(l: Seq<u8>) -> Seq<u8> {
    strip_cr(l).subrange(0, lead_run(strip_cr(l), 0))
}

/// The longest indentation shared by all lines that are not only spaces
/// and tabs, or `None` when there is no such line.
pub open spec fn common_indent(ls: Seq<Seq<u8>>) -> Option<Seq<u8>>
    decreases ls.len(),
{
    if ls.len() == 0 {
        None
    } else {
        let prev = common_indent(ls.drop_last());
        if all_sp_tab(strip_cr(ls.last())) {
            prev
        } else {
            let p = line_indent(ls.last());
            match prev {
                None => Some(p),
                Some(e) => Some(e.subrange(0, common_prefix_len(e, p, 0))),
            }
        }
    }
}

/// A line of `string.dedent`: without its first `k` bytes, or emptied when
/// it holds only spaces and tabs; a trailing carriage return is kept.
pub open spec fn dedent_line(l: Seq<u8>, k: int) -> Seq<u8> {
    let c = strip_cr(l);
    let cr = l.subrange(c.len() as int, l.len() as int);
    if all_sp_tab(c) {
        cr
    } else {
        c.subrange(k, c.len() as int) + cr
    }
}

/// `string.dedent(s)`: remove the indentation common to all lines that
/// are not only spaces and tabs.
pub open spec fn dedent_spec(s: Seq<u8>) -> Seq<u8> {
    let ls = lines_of(s);
    let k = match common_indent(ls) {
        Some(p) => p.len() as int,
        None => 0,
    };
    join_lines(ls.map_values(|l: Seq<u8>| dedent_line(l, k)))
}

/// The common indentation exists and is no longer than line `j`'s.
pub open spec fn indent_fits(ls: Seq<Seq<u8>>, j: int) -> bool {
    common_indent(ls) matches Some(p) && p.len() <= line_indent(ls[j]).len()
}

proof fn lemma_lead_run(c: Seq<u8>, i: int)
    requires
        0 <= i <= c.len(),
    ensures
        i <= lead_run(c, i) <= c.len(),
        forall|j: int| i <= j < lead_run(c, i) ==> is_sp_tab(#[trigger] c[j]),
    decreases c.len() - i,
{
    if i < c.len() && is_sp_tab(c[i]) {
        lemma_lead_run(c, i + 1);
    }
}

proof fn lemma_common_prefix_len(a: Seq<u8>, b: Seq<u8>, k: int)
    requires
        0 <= k <= a.len(),
        k <= b.len(),
    ensures
        k <= common_prefix_len(a, b, k) <= a.len(),
        common_prefix_len(a, b, k) <= b.len(),
    decreases a.len() - k,
{
    if k < a.len() && k < b.len() && a[k] == b[k] {
        lemma_common_prefix_len(a, b, k + 1);
    }
}

/// The common indentation is no longer than the indentation of any line
/// that is not only spaces and tabs.
proof fn lemma_common_indent(ls: Seq<Seq<u8>>)
    ensures
        forall|j: int|
            0 <= j < ls.len() && !all_sp_tab(strip_cr(#[trigger] ls[j])) ==> indent_fits(ls, j),
        common_indent(ls) matches Some(p) ==> exists|j: int|
            0 <= j < ls.len() && p.len() <= #[trigger] line_indent(ls[j]).len(),
    decreases ls.len(),
{
    if ls.len() > 0 {
        let init = ls.drop_last();
        lemma_common_indent(init);
        let c = strip_cr(ls.last());
        lemma_lead_run(c, 0);
        let p = line_indent(ls.last());
        assert forall|j: int|
            0 <= j < ls.len() && !all_sp_tab(strip_cr(#[trigger] ls[j])) implies indent_fits(ls, j) by {
            if j < ls.len() - 1 {
                assert(ls[j] == init[j]);
            }
            if !all_sp_tab(c) {
                match common_indent(init) {
                    None => {},
                    Some(e) => {
                        lemma_common_prefix_len(e, p, 0);
                    },
                }
            }
        }
        match common_indent(ls) {
            Some(q) => {
                if all_sp_tab(c) {
                    let j = choose|j: int| 0 <= j < init.len() && q.len() <= #[trigger] line_indent(init[j]).len();
                    assert(ls[j] == init[j]);
                } else {
                    match common_indent(init) {
                        None => {
                            assert(line_indent(ls[ls.len() - 1]) == p);
                        },
                        Some(e) => {
                            lemma_common_prefix_len(e, p, 0);
                            assert(line_indent(ls[ls.len() - 1]) == p);
                        },
                    }
                }
            },
            None => {},
        }
    }
}

/// Does a line's content hold only spaces and tabs?
fn only_sp_tab(v: &[u8], end: usize) -> (r: bool)
    requires
        end <= v@.len(),
    ensures
        r == all_sp_tab(v@.subrange(0, end as int)),
{
    let mut i: usize = 0;
    while i < end
        invariant
            i <= end <= v@.len(),
            all_sp_tab(v@.subrange(0, i as int)),
        decreases end - i,
    {
        if !(v[i] == 32 || v[i] == 9) {
            assert(v@.subrange(0, end as int)[i as int] == v@[i as int]);
            return false;
        }
        i = i + 1;
        assert forall|k: int| 0 <= k < i implies is_sp_tab(#[trigger] v@.subrange(0, i as int)[k]) by {
            if k < i - 1 {
                assert(v@.subrange(0, i as int)[k] == v@.subrange(0, i - 1)[k]);
            }
        }
    }
    true
}

/// The length of the leading run of spaces and tabs of `v[..end]`.
fn lead_len(v: &[u8], end: usize) -> (r: usize)
    requires
        end <= v@.len(),
    ensures
        r == lead_run(v@.subrange(0, end as int), 0),
{
    let ghost c = v@.subrange(0, end as int);
    let mut i: usize = 0;
    while i < end && (v[i] == 32 || v[i] == 9)
        invariant
            i <= end <= v@.len(),
            c == v@.subrange(0, end as int),
            lead_run(c, i as int) == lead_run(c, 0),
        decreases end - i,
    {
        assert(c[i as int] == v@[i as int]);
        i = i + 1;
    }
    proof {
        if i < end {
            assert(c[i as int] == v@[i as int]);
        }
    }
    i
}

/// The length of the common prefix of `a[..al]` and `b[..bl]`.
fn common_len(a: &[u8], al: usize, b: &[u8], bl: usize) -> (r: usize)
    requires
        al <= a@.len(),
        bl <= b@.len(),
    ensures
        r == common_prefix_len(a@.subrange(0, al as int), b@.subrange(0, bl as int), 0),
{
    let ghost x = a@.subrange(0, al as int);
    let ghost y = b@.subrange(0, bl as int);
    let mut k: usize = 0;
    while k < al && k < bl && a[k] == b[k]
        invariant
            k <= al <= a@.len(),
            bl <= b@.len(),
            x == a@.subrange(0, al as int),
            y == b@.subrange(0, bl as int),
            common_prefix_len(x, y, k as int) == common_prefix_len(x, y, 0),
        decreases al - k,
    {
        assert(x[k as int] == a@[k as int] && y[k as int] == b@[k as int]);
        k = k + 1;
    }
    proof {
        if k < al && k < bl {
            assert(x[k as int] == a@[k as int] && y[k as int] == b@[k as int]);
        }
    }
    k
}

/// `string.dedent`.
pub fn dedent(s: &[u8]) -> (r: Vec<u8>)
    ensures
        r@ == dedent_spec(s@),
{
    let nl: Vec<u8> = vec![10u8];
    let lines = split(s, Some(nl.as_slice()));
    let ghost ls = lines_of(s@);
    assert(nl@ =~= seq![10u8]);
    assert(split_spec(s@, nl@) == ls);
    assert(lines@.len() == ls.len());
    assert(forall|j: int| 0 <= j < ls.len() ==> #[trigger] lines@[j]@ == ls[j]);
    let n = lines.len();
    // First pass: the indentation shared by the lines with content.
    let mut common: Option<Vec<u8>> = None;
    let mut k: usize = 0;
    while k < n
        invariant
            n == lines@.len(),
            n == ls.len(),
            k <= n,
            ls == lines_of(s@),
            forall|j: int| 0 <= j < n ==> #[trigger] lines@[j]@ == ls[j],
            match common {
                Some(v) => common_indent(ls.subrange(0, k as int)) == Some(v@),
                None => common_indent(ls.subrange(0, k as int)) is None,
            },
        decreases n - k,
    {
        let line = lines[k].as_slice();
        let c = content_len(line);
        proof {
            assert(ls.subrange(0, k + 1).drop_last() =~= ls.subrange(0, k as int));
            assert(ls.subrange(0, k + 1).last() == ls[k as int]);
        }
        if !only_sp_tab(line, c) {
            let ind = lead_len(line, c);
            proof {
                lemma_lead_run(line@.subrange(0, c as int), 0);
            }
            let p = copy_range(line, 0, ind);
            assert(p@ =~= line_indent(ls[k as int]));
            common = match common {
                None => Some(p),
                Some(e) => {
                    let el = e.len();
                    let cl = common_len(e.as_slice(), el, p.as_slice(), ind);
                    proof {
                        assert(e@.subrange(0, el as int) =~= e@);
                        assert(p@.subrange(0, ind as int) =~= p@);
                        lemma_common_prefix_len(e@, p@, 0);
                    }
                    Some(copy_range(e.as_slice(), 0, cl))
                },
            };
        }
        k = k + 1;
    }
    assert(ls.subrange(0, n as int) =~= ls);
    let prefix_len: usize = match &common {
        Some(v) => v.len(),
        None => 0,
    };
    proof {
        lemma_common_indent(ls);
    }
    // Second pass: rewrite each line.
    let ghost mapped = ls.map_values(|l: Seq<u8>| dedent_line(l, prefix_len as int));
    let mut out: Vec<u8> = Vec::new();
    if n == 0 {
        return out;
    }
    let mut k: usize = 0;
    while k < n
        invariant
            n == lines@.len(),
            n == ls.len(),
            n > 0,
            k <= n,
            ls == lines_of(s@),
            mapped == ls.map_values(|l: Seq<u8>| dedent_line(l, prefix_len as int)),
            prefix_len as int == (match common_indent(ls) {
                Some(p) => p.len() as int,
                None => 0,
            }),
            forall|j: int|
                0 <= j < ls.len() && !all_sp_tab(strip_cr(#[trigger] ls[j])) ==> indent_fits(ls, j),
            forall|j: int| 0 <= j < n ==> #[trigger] lines@[j]@ == ls[j],
            k < n ==> out@ == concat_nl(mapped.subrange(0, k as int)),
            k == n ==> out@ == join_lines(mapped),
        decreases n - k,
    {
        let line = lines[k].as_slice();
        let ln = line.len();
        let c = content_len(line);
        let ghost before = out@;
        if !only_sp_tab(line, c) {
            proof {
                assert(!all_sp_tab(strip_cr(ls[k as int])));
                lemma_lead_run(strip_cr(ls[k as int]), 0);
            }
            append_range(&mut out, line, prefix_len, c);
        }
        append_range(&mut out, line, c, ln);
        proof {
            let l = ls[k as int];
            assert(mapped[k as int] == dedent_line(l, prefix_len as int));
            if all_sp_tab(strip_cr(l)) {
                assert(out@ =~= before + mapped[k as int]);
            } else {
                assert(line@.subrange(prefix_len as int, c as int) =~= strip_cr(l).subrange(
                    prefix_len as int,
                    strip_cr(l).len() as int,
                ));
                assert(out@ =~= before + mapped[k as int]);
            }
            assert(mapped.subrange(0, k + 1).drop_last() =~= mapped.subrange(0, k as int));
        }
        if k + 1 < n {
            out.push(10u8);
        } else {
            assert(mapped.subrange(0, k as int) =~= mapped.drop_last());
        }
        k = k + 1;
    }
    out
}

/// An argument of `string.char`: an integer, or any other value (the
/// payload is its type name).
#[derive(Debug)]
pub enum CharArg {
    Integer(i64),
    Other(String),
}

/// The argument is an integer byte code.
pub open spec fn char_arg_ok(a: CharArg) -> bool {
    a matches CharArg::Integer(n) && 0 <= n <= 255
}

/// The code of an integer argument.
pub open spec fn char_code(a: CharArg) -> int {
    match a {
        CharArg::Integer(n) => n as int,
        CharArg::Other(_) => 0,
    }
}

/// `string.char(...)`: the bytes with the given codes; the first argument
/// that is not an integer in `[0, 255]` is a bad argument.
pub fn char(args: &[CharArg]) -> (r: Result<Vec<u8>, LibError>)
    ensures
        match r {
            Ok(v) => (forall|k: int| 0 <= k < args@.len() ==> char_arg_ok(#[trigger] args@[k]))
                && v@.len() == args@.len() && forall|k: int|
                0 <= k < args@.len() ==> #[trigger] v@[k] == char_code(args@[k]),
            Err(e) => exists|k: int|
                0 <= k < args@.len() && !char_arg_ok(#[trigger] args@[k]) && (forall|j: int|
                    0 <= j < k ==> char_arg_ok(#[trigger] args@[j])) && is_bad_argument_got(
                    e,
                    (k + 1) as usize,
                    "char"@,
                    "integer in [0,255]"@,
                    match args@[k] {
                        CharArg::Integer(_) => "number"@,
                        CharArg::Other(t) => t@,
                    },
                ),
        },
{
    let n = args.len();
    let mut out: Vec<u8> = Vec::new();
    let mut i: usize = 0;
    while i < n
        invariant
            i <= n,
            n == args@.len(),
            out@.len() == i,
            forall|k: int| 0 <= k < i ==> char_arg_ok(#[trigger] args@[k]),
            forall|k: int| 0 <= k < i ==> #[trigger] out@[k] == char_code(args@[k]),
        decreases n - i,
    {
        match &args[i] {
            CharArg::Integer(c) => {
                if 0 <= *c && *c <= 255 {
                    out.push(*c as u8);
                } else {
                    proof {
                        reveal_strlit("number");
                    }
                    let e = bad_argument(i + 1, "char", "integer in [0,255]", String::from_str("number"));
                    assert(!char_arg_ok(args@[i as int]));
                    return Err(e);
                }
            },
            CharArg::Other(t) => {
                let e = bad_argument(i + 1, "char", "integer in [0,255]", t.clone());
                assert(!char_arg_ok(args@[i as int]));
                return Err(e);
            },
        }
        i = i + 1;
    }
    Ok(out)
}

// ---------------------------------------------------------------------------
// Captures as Lua values
// ---------------------------------------------------------------------------

/// A capture handed to Lua: a substring, or a 1-based position.
#[derive(Debug, Clone, PartialEq, Eq)]
pub enum LuaCapture {
    Bytes(Vec<u8>),
    Position(i64),
}

/// `v` is the Lua value of the capture `c` of a match in `hay`.
pub open spec fn capture_value_ok(v: LuaCapture, c: Capture, hay: Seq<u8>) -> bool {
    match c {
        Capture::Span { start, end } => v matches LuaCapture::Bytes(b) && b@ == hay.subrange(
            start as int,
            end as int,
        ),
        Capture::Position(p) => v matches LuaCapture::Position(q) && q == p + 1,
    }
}

/// `vals` are the Lua values of the captures `caps`.
pub open spec fn captures_ok(vals: Seq<LuaCapture>, caps: Seq<Capture>, hay: Seq<u8>) -> bool {
    &&& vals.len() == caps.len()
    &&& forall|k: int| 0 <= k < caps.len() ==> capture_value_ok(#[trigger] vals[k], caps[k], hay)
}

/// `vals` are what a match hands to Lua: its captures, or the whole match
/// when the pattern has none.
pub open spec fn extracted_ok(
    vals: Seq<LuaCapture>,
    start: int,
    end: int,
    caps: Seq<Capture>,
    hay: Seq<u8>,
) -> bool {
    if caps.len() == 0 {
        &&& vals.len() == 1
        &&& vals[0] matches LuaCapture::Bytes(b) && b@ == hay.subrange(start, end)
    } else {
        captures_ok(vals, caps, hay)
    }
}

/// The Lua value of one capture.
pub fn capture_to_value(cap: &Capture, hay: &[u8]) -> (r: LuaCapture)
    requires
        capture_wf(*cap, hay@.len() as int),
        hay@.len() < i64::MAX,
    ensures
        capture_value_ok(r, *cap, hay@),
{
    match *cap {
        Capture::Span { start, end } => LuaCapture::Bytes(copy_range(hay, start, end)),
        Capture::Position(p) => LuaCapture::Position(p as i64 + 1),
    }
}

/// The Lua values of all explicit captures of a match.
pub fn capture_values(m: &Match, hay: &[u8]) -> (r: Vec<LuaCapture>)
    requires
        match_wf(*m, hay@.len() as int),
        hay@.len() < i64::MAX,
    ensures
        captures_ok(r@, m.captures@, hay@),
{
    let mut out: Vec<LuaCapture> = Vec::new();
    let mut k: usize = 0;
    while k < m.captures.len()
        invariant
            k <= m.captures@.len(),
            match_wf(*m, hay@.len() as int),
            hay@.len() < i64::MAX,
            out@.len() == k,
            forall|i: int| 0 <= i < k ==> capture_value_ok(#[trigger] out@[i], m.captures@[i], hay@),
        decreases m.captures@.len() - k,
    {
        assert(capture_wf(m.captures@[k as int], hay@.len() as int));
        let v = capture_to_value(&m.captures[k], hay);
        out.push(v);
        k = k + 1;
    }
    out
}

/// The values a match hands to Lua: its captures, or the whole match
/// when the pattern has none.
pub fn extract_captures(m: &Match, hay: &[u8]) -> (r: Vec<LuaCapture>)
    requires
        match_wf(*m, hay@.len() as int),
        hay@.len() < i64::MAX,
    ensures
        extracted_ok(r@, m.start as int, m.end as int, m.captures@, hay@),
{
    if m.captures.len() == 0 {
        let mut out: Vec<LuaCapture> = Vec::new();
        out.push(LuaCapture::Bytes(copy_range(hay, m.start, m.end)));
        out
    } else {
        capture_values(m, hay)
    }
}

// ---------------------------------------------------------------------------
// find and match
// ---------------------------------------------------------------------------

/// The result of `string.find`: the 1-based inclusive bounds of the match
/// and its captures, or no match.
#[derive(Debug)]
pub enum FindResult {
    Match(i64, i64, Vec<LuaCapture>),
    NotFound,
}

/// The start offset of a search from the optional 1-based `init`.
pub open spec fn init_offset(init: Option<i64>, len: int) -> int {
    match init {
        Some(i) => lua_index_spec(i as int, len),
        None => 0,
    }
}

/// Is the 1-based `init` past the end of a string of length `len` plus
/// one?  A search from there finds nothing.
pub open spec fn init_past_end(init: Option<i64>, len: int) -> bool {
    init matches Some(i) && i > len + 1
}

/// The runtime error raised for a pattern error.
pub open spec fn is_pattern_error(e: LibError, k: PatternErrorKind) -> bool {
    is_runtime(e, error_message(k))
}

/// Search `hay[from..]` for `needle` by comparing at every offset.
fn find_plain(hay: &[u8], from: usize, needle: &[u8]) -> (r: Option<usize>)
    requires
        from <= hay@.len(),
    ensures
        is_first_occurrence(hay@.subrange(from as int, hay@.len() as int), needle@, r),
{
    let n = hay.len();
    let m = needle.len();
    let ghost sub = hay@.subrange(from as int, n as int);
    if m > n - from {
        assert forall|j: int| !#[trigger] occurs_at(sub, needle@, j) by {}
        return None;
    }
    let limit = n - from - m;
    let mut i: usize = 0;
    while i < limit
        invariant
            n == hay@.len(),
            m == needle@.len(),
            from + m <= n,
            limit == n - from - m,
            sub == hay@.subrange(from as int, n as int),
            i <= limit,
            forall|j: int| 0 <= j < i ==> !#[trigger] occurs_at(sub, needle@, j),
        decreases limit - i,
    {
        let hit = range_eq(hay, from + i, needle);
        assert(sub.subrange(i as int, i + m) =~= hay@.subrange(from + i, from + i + m));
        if hit {
            return Some(i);
        }
        i = i + 1;
    }
    let hit = range_eq(hay, from + limit, needle);
    assert(sub.subrange(limit as int, limit + m) =~= hay@.subrange(from + limit, from + limit + m));
    if hit {
        return Some(limit);
    }
    assert forall|j: int| !#[trigger] occurs_at(sub, needle@, j) by {
        if 0 <= j < i {
        }
    }
    None
}

/// `string.find(s, pattern, init, plain)`: search from the position
/// `init` (default 1), either for the bytes of `pattern` (when `plain`)
/// or for a match of the Lua pattern.  A start past `#s + 1` finds
/// nothing.
pub fn find(s: &[u8], pattern: &[u8], init: Option<i64>, plain: Option<bool>) -> (r: Result<
    FindResult,
    LibError,
>)
    requires
        s@.len() < isize::MAX,
    ensures
        init_past_end(init, s@.len() as int) ==> r matches Ok(FindResult::NotFound),
        r matches Ok(FindResult::Match(a, b, _)) ==> init_offset(init, s@.len() as int) + 1 <= a && a <= b + 1
            && b <= s@.len(),
        plain == Some(true) && !init_past_end(init, s@.len() as int) ==> (r matches Ok(FindResult::Match(a, b, c))
            ==> s@.subrange(a - 1, b as int) == pattern@ && c@.len() == 0 && forall|j: int|
            init_offset(init, s@.len() as int) <= j < a - 1 ==> !#[trigger] occurs_at(s@, pattern@, j)),
        plain != Some(true) && !init_past_end(init, s@.len() as int) ==> (validate_spec(pattern@) matches Ok(k)
            ==> (r matches Ok(FindResult::Match(_, _, c)) ==> c@.len() == k)),
        plain != Some(true) ==> (r matches Err(e) ==> validate_spec(pattern@) is Err || is_runtime(
            e,
            error_message(PatternErrorKind::TooComplex),
        ) || exists|d: u8| #[trigger] is_runtime(e, error_message(PatternErrorKind::InvalidCaptureIndex(d)))),
        plain == Some(true) && !init_past_end(init, s@.len() as int) ==> (r matches Ok(FindResult::NotFound)
            ==> forall|j: int| init_offset(init, s@.len() as int) <= j ==> !#[trigger] occurs_at(s@, pattern@, j)),
        !init_past_end(init, s@.len() as int) ==> ({
            let start = init_offset(init, s@.len() as int);
            let hay = s@.subrange(start, s@.len() as int);
            if plain == Some(true) {
                if pattern@.len() == 0 {
                    r matches Ok(FindResult::Match(a, b, c)) && a == start + 1 && b == start
                        && c@.len() == 0
                } else {
                    match r {
                        Ok(FindResult::Match(a, b, c)) => is_first_occurrence(
                            hay,
                            pattern@,
                            Some((a - start - 1) as usize),
                        ) && b == a - 1 + pattern@.len() && c@.len() == 0,
                        Ok(FindResult::NotFound) => is_first_occurrence(hay, pattern@, None),
                        Err(_) => false,
                    }
                }
            } else {
                match validate_spec(pattern@) {
                    Err(k) => r matches Err(e) && is_pattern_error(e, k),
                    Ok(_) => match find_spec(hay, pattern@, 0) {
                        Err(k) => r matches Err(e) && is_pattern_error(e, k),
                        Ok(None) => r matches Ok(FindResult::NotFound),
                        Ok(Some((ms, me, caps))) => r matches Ok(FindResult::Match(a, b, c)) && a
                            == start + ms + 1 && b == start + me && captures_ok(
                            c@,
                            captures_of(caps),
                            hay,
                        ),
                    },
                }
            }
        }),
{
    let n = s.len();
    if let Some(i) = init {
        if i > n as i64 + 1 {
            return Ok(FindResult::NotFound);
        }
    }
    let start = match init {
        Some(i) => lua_index(i, n),
        None => 0,
    };
    let plain = match plain {
        Some(p) => p,
        None => false,
    };
    if plain {
        if pattern.len() == 0 {
            return Ok(FindResult::Match((start + 1) as i64, start as i64, Vec::new()));
        }
        let found = find_plain(s, start, pattern);
        proof {
            let hay = s@.subrange(start as int, n as int);
            assert forall|j: int| start <= j && #[trigger] occurs_at(s@, pattern@, j) implies occurs_at(
                hay,
                pattern@,
                j - start,
            ) by {
                assert(hay.subrange(j - start, j - start + pattern@.len()) =~= s@.subrange(j, j + pattern@.len()));
            }
        }
        match found {
            Some(pos) => {
                proof {
                    let hay = s@.subrange(start as int, n as int);
                    assert(occurs_at(hay, pattern@, pos as int));
                    assert(hay.subrange(pos as int, pos + pattern@.len()) =~= s@.subrange(
                        start + pos,
                        start + pos + pattern@.len(),
                    ));
                }
                let a = (start + pos + 1) as i64;
                let b = (start + pos + pattern.len()) as i64;
                Ok(FindResult::Match(a, b, Vec::new()))
            },
            None => Ok(FindResult::NotFound),
        }
    } else {
        let pat = match Pattern::compile(pattern) {
            Ok(p) => p,
            Err(e) => {
                return Err(runtime_error(e.message));
            },
        };
        let hay = copy_range(s, start, n);
        match pat.find(hay.as_slice(), 0) {
            Err(e) => Err(runtime_error(e.message)),
            Ok(None) => Ok(FindResult::NotFound),
            Ok(Some(m)) => {
                let caps = capture_values(&m, hay.as_slice());
                Ok(FindResult::Match((start + m.start + 1) as i64, (start + m.end) as i64, caps))
            },
        }
    }
}

/// `string.match(s, pattern, init)`: the captures of the first match from
/// position `init` (the whole match when the pattern has no captures), or
/// `None`.
pub fn string_match(s: &[u8], pattern: &[u8], init: Option<i64>) -> (r: Result<
    Option<Vec<LuaCapture>>,
    LibError,
>)
    requires
        s@.len() < isize::MAX,
    ensures
        ({
            let start = init_offset(init, s@.len() as int);
            let hay = s@.subrange(start, s@.len() as int);
            match validate_spec(pattern@) {
                Err(k) => r matches Err(e) && is_pattern_error(e, k),
                Ok(_) => match find_spec(hay, pattern@, 0) {
                    Err(k) => r matches Err(e) && is_pattern_error(e, k),
                    Ok(None) => r matches Ok(None),
                    Ok(Some((ms, me, caps))) => r matches Ok(Some(v)) && extracted_ok(
                        v@,
                        ms,
                        me,
                        captures_of(caps),
                        hay,
                    ),
                },
            }
        }),
{
    let n = s.len();
    let start = match init {
        Some(i) => lua_index(i, n),
        None => 0,
    };
    let pat = match Pattern::compile(pattern) {
        Ok(p) => p,
        Err(e) => {
            return Err(runtime_error(e.message));
        },
    };
    let hay = copy_range(s, start, n);
    match pat.find(hay.as_slice(), 0) {
        Err(e) => Err(runtime_error(e.message)),
        Ok(None) => Ok(None),
        Ok(Some(m)) => Ok(Some(extract_captures(&m, hay.as_slice()))),
    }
}

// ---------------------------------------------------------------------------
// gmatch
// ---------------------------------------------------------------------------

/// The start offset of `string.gmatch` for the optional 1-based `init`:
/// positive positions are not clamped, zero and too-negative ones start
/// at 0, other negative ones count from the end.
pub open spec fn gmatch_offset(init: Option<i64>, len: int) -> int {
    let i = match init {
        Some(i) => i as int,
        None => 1,
    };
    if i > 0 {
        i - 1
    } else if i == 0 || i < -len {
        0
    } else {
        len + i
    }
}

/// An optional offset as an integer.
pub open spec fn opt_int(o: Option<usize>) -> Option<int> {
    match o {
        Some(x) => Some(x as int),
        None => None,
    }
}

/// One step of `gmatch`: the next match from `offset` that is not an empty
/// match ending where the previous one ended, with the offset and the end
/// of the last match after it.  No match, or a pattern error, ends the
/// iteration (the offset moves past the end).
pub open spec fn gmatch_step(s: Seq<u8>, pat: Seq<u8>, offset: int, last: Option<int>) -> (
    Option<(int, int, Seq<crate::lua_pattern::CaptureSlot>)>,
    int,
    Option<int>,
)
    decreases s.len() + 1 - offset,
{
    if offset < 0 || offset > s.len() {
        (None, offset, last)
    } else {
        match find_spec(s, pat, offset) {
            Ok(Some((ms, me, caps))) => if ms == me && last == Some(me) {
                gmatch_step(s, pat, offset + 1, last)
            } else {
                (Some((ms, me, caps)), if me == ms {
                    me + 1
                } else {
                    me
                }, Some(me))
            },
            _ => (None, s.len() + 1int, last),
        }
    }
}

/// The iteration state of `string.gmatch`.
pub struct Gmatch {
    s: Vec<u8>,
    pat: Pattern,
    offset: u64,
    last_match_end: Option<usize>,
}

impl Gmatch {
    #[verifier::type_invariant]
    spec fn inv(self) -> bool {
        self.s@.len() < isize::MAX
    }

    /// The subject.
    pub closed spec fn subject(&self) -> Seq<u8> {
        self.s@
    }

    /// The pattern.
    pub closed spec fn pattern(&self) -> Seq<u8> {
        self.pat@
    }

    /// The offset of the next search.
    pub closed spec fn offset(&self) -> int {
        self.offset as int
    }

    /// The end of the last match handed out.
    pub closed spec fn last_end(&self) -> Option<int> {
        opt_int(self.last_match_end)
    }

    /// The captures of the next match (the whole match when the pattern
    /// has none), or `None` when the iteration is over.
    pub fn next_match(&mut self) -> (r: Option<Vec<LuaCapture>>)
        ensures
            ({
                let (res, off, last) = gmatch_step(
                    old(self).subject(),
                    old(self).pattern(),
                    old(self).offset(),
                    old(self).last_end(),
                );
                &&& final(self).subject() == old(self).subject()
                &&& final(self).pattern() == old(self).pattern()
                &&& final(self).offset() == off
                &&& final(self).last_end() == last
                &&& match res {
                    None => r is None,
                    Some((ms, me, caps)) => r matches Some(v) && extracted_ok(
                        v@,
                        ms,
                        me,
                        captures_of(caps),
                        old(self).subject(),
                    ),
                }
            }),
    {
        proof {
            use_type_invariant(&*self);
        }
        let n = self.s.len();
        let ghost s0 = self.s@;
        let ghost p0 = self.pat@;
        let ghost target = gmatch_step(s0, p0, self.offset as int, opt_int(self.last_match_end));
        loop
            invariant
                self.s@ == s0,
                self.pat@ == p0,
                n == s0.len(),
                n < isize::MAX,
                self.offset >= 0,
                gmatch_step(s0, p0, self.offset as int, opt_int(self.last_match_end)) == target,
                s0 == old(self).subject(),
                p0 == old(self).pattern(),
                target == gmatch_step(
                    old(self).subject(),
                    old(self).pattern(),
                    old(self).offset(),
                    old(self).last_end(),
                ),
            decreases n + 1 - self.offset,
        {
            if self.offset > n as u64 {
                return None;
            }
            match self.pat.find(self.s.as_slice(), self.offset as usize) {
                Ok(Some(m)) => {
                    if m.start == m.end && self.last_match_end == Some(m.end) {
                        self.offset = self.offset + 1;
                    } else {
                        let caps = extract_captures(&m, self.s.as_slice());
                        self.last_match_end = Some(m.end);
                        self.offset = if m.end == m.start {
                            (m.end + 1) as u64
                        } else {
                            m.end as u64
                        };
                        return Some(caps);
                    }
                },
                _ => {
                    self.offset = (n as u64) + 1;
                    return None;
                },
            }
        }
    }
}

/// `string.gmatch(s, pattern, init)`: an iteration over the matches of
/// `pattern` in `s` from position `init` (default 1).
pub fn gmatch(s: &[u8], pattern: &[u8], init: Option<i64>) -> (r: Result<Gmatch, LibError>)
    requires
        s@.len() < isize::MAX,
    ensures
        match validate_spec(pattern@) {
            Err(k) => r matches Err(e) && is_pattern_error(e, k),
            Ok(_) => r matches Ok(g) && g.subject() == s@ && g.pattern() == pattern@ && g.offset()
                == gmatch_offset(init, s@.len() as int) && g.last_end() is None,
        },
{
    let pat = match Pattern::compile(pattern) {
        Ok(p) => p,
        Err(e) => {
            return Err(runtime_error(e.message));
        },
    };
    let n = s.len();
    let i = match init {
        Some(i) => i,
        None => 1,
    };
    let offset: u64 = if i > 0 {
        (i - 1) as u64
    } else if i == 0 || (n as u64) < magnitude_of(i) {
        0
    } else {
        (n as u64) - magnitude_of(i)
    };
    let v = copy_range(s, 0, n);
    assert(s@.subrange(0, n as int) =~= s@);
    Ok(Gmatch { s: v, pat, offset, last_match_end: None })
}

/// `-i` for a negative `i`, as an unsigned integer.
fn magnitude_of(i: i64) -> (r: u64)
    requires
        i < 0,
    ensures
        r == -i,
{
    (-(i + 1)) as u64 + 1
}

// ---------------------------------------------------------------------------
// gsub
// ---------------------------------------------------------------------------

/// Why a `gsub` replacement failed.
#[derive(Debug, Clone, Copy, PartialEq, Eq, Structural)]
pub enum GsubError {
    /// The pattern failed to compile or to run.
    Pattern(PatternErrorKind),
    /// A `%` in the replacement string not followed by a digit or `%`.
    BadPercent,
    /// A `%N` in the replacement string naming a capture that does not
    /// exist; the payload is `N`.
    BadCaptureIndex(u8),
}

/// The message of a `gsub` error.
pub open spec fn gsub_error_message(e: GsubError) -> Seq<char> {
    match e {
        GsubError::Pattern(k) => error_message(k),
        GsubError::BadPercent => "invalid use of '%' in replacement string"@,
        GsubError::BadCaptureIndex(d) => "invalid capture index %"@ + seq![(d + 48) as char],
    }
}

/// The hint shown with a `%` misused in a replacement string.
pub open spec fn percent_hint() -> Seq<char> {
    "every `%` in a replacement string must be followed by a digit (`%0` is the whole match, `%1`..`%9` are the captures) or another `%` for a literal `%`"@
}

/// The hints shown with a `gsub` error: one for a misused `%`.
pub open spec fn gsub_error_hints(e: GsubError) -> Seq<Seq<char>> {
    match e {
        GsubError::BadPercent => seq![percent_hint()],
        _ => Seq::empty(),
    }
}

/// The bytes that `%idx` stands for in a replacement string: the whole
/// match for 0 (and for 1 when the pattern has no captures), else the
/// capture (a position capture as its 1-based decimal position).
pub open spec fn capture_text(
    s: Seq<u8>,
    ms: int,
    me: int,
    caps: Seq<Capture>,
    idx: int,
) -> Result<Seq<u8>, GsubError> {
    if idx == 0 || (caps.len() == 0 && idx == 1) {
        Ok(s.subrange(ms, me))
    } else if 1 <= idx <= caps.len() {
        match caps[idx - 1] {
            Capture::Span { start, end } => Ok(s.subrange(start as int, end as int)),
            Capture::Position(p) => Ok(int_decimal(p + 1)),
        }
    } else {
        Err(GsubError::BadCaptureIndex(idx as u8))
    }
}

/// The expansion of the replacement string `repl` from index `i` on,
/// appended to `acc`: `%%` is `%`, `%0`..`%9` a capture, and any other
/// byte itself.
pub open spec fn expand_from(
    repl: Seq<u8>,
    i: int,
    s: Seq<u8>,
    ms: int,
    me: int,
    caps: Seq<Capture>,
    acc: Seq<u8>,
) -> Result<Seq<u8>, GsubError>
    decreases repl.len() - i,
{
    if i < 0 || i >= repl.len() {
        Ok(acc)
    } else if repl[i] == 37 {
        if i + 1 >= repl.len() {
            Err(GsubError::BadPercent)
        } else if repl[i + 1] == 37 {
            expand_from(repl, i + 2, s, ms, me, caps, acc.push(37u8))
        } else if 48 <= repl[i + 1] <= 57 {
            match capture_text(s, ms, me, caps, repl[i + 1] - 48) {
                Ok(t) => expand_from(repl, i + 2, s, ms, me, caps, acc + t),
                Err(e) => Err(e),
            }
        } else {
            Err(GsubError::BadPercent)
        }
    } else {
        expand_from(repl, i + 1, s, ms, me, caps, acc.push(repl[i]))
    }
}

/// The replacement text of a match for the replacement string `repl`.
pub open spec fn expand_spec(repl: Seq<u8>, s: Seq<u8>, ms: int, me: int, caps: Seq<Capture>) -> Result<
    Seq<u8>,
    GsubError,
> {
    expand_from(repl, 0, s, ms, me, caps, Seq::empty())
}

/// Append the text of capture `idx` of match `m` in `s` to `out`.
fn append_capture(out: &mut Vec<u8>, m: &Match, s: &[u8], idx: u8) -> (r: Result<(), GsubError>)
    requires
        match_wf(*m, s@.len() as int),
        s@.len() < isize::MAX,
        idx <= 9,
    ensures
        match capture_text(s@, m.start as int, m.end as int, m.captures@, idx as int) {
            Ok(t) => r is Ok && final(out)@ == old(out)@ + t,
            Err(e) => r == Err::<(), GsubError>(e),
        },
        r matches Err(e) ==> !(e is Pattern) && (e matches GsubError::BadCaptureIndex(d) ==> d
            <= 9),
{
    let nc = m.captures.len();
    if idx == 0 || (nc == 0 && idx == 1) {
        append_range(out, s, m.start, m.end);
        return Ok(());
    }
    if 1 <= idx && (idx as usize) <= nc {
        let c = m.captures[(idx - 1) as usize];
        assert(capture_wf(m.captures@[idx - 1], s@.len() as int));
        match c {
            Capture::Span { start, end } => append_range(out, s, start, end),
            Capture::Position(p) => push_decimal(out, p as i64 + 1),
        }
        Ok(())
    } else {
        Err(GsubError::BadCaptureIndex(idx))
    }
}

/// Append the expansion of the replacement string `repl` for match `m`.
pub fn expand_replacement(out: &mut Vec<u8>, repl: &[u8], m: &Match, s: &[u8]) -> (r: Result<
    (),
    GsubError,
>)
    requires
        match_wf(*m, s@.len() as int),
        s@.len() < isize::MAX,
    ensures
        match expand_spec(repl@, s@, m.start as int, m.end as int, m.captures@) {
            Ok(t) => r is Ok && final(out)@ == old(out)@ + t,
            Err(e) => r == Err::<(), GsubError>(e),
        },
        r matches Err(e) ==> !(e is Pattern) && (e matches GsubError::BadCaptureIndex(d) ==> d
            <= 9),
{
    let n = repl.len();
    let mut i: usize = 0;
    let ghost target = expand_spec(repl@, s@, m.start as int, m.end as int, m.captures@);
    let ghost mut acc: Seq<u8> = Seq::empty();
    while i < n
        invariant
            n == repl@.len(),
            i <= n,
            match_wf(*m, s@.len() as int),
            s@.len() < isize::MAX,
            out@ == old(out)@ + acc,
            target == expand_spec(repl@, s@, m.start as int, m.end as int, m.captures@),
            expand_from(repl@, i as int, s@, m.start as int, m.end as int, m.captures@, acc)
                == target,
        decreases n - i,
    {
        let b = repl[i];
        if b == 37 {
            if i + 1 >= n {
                return Err(GsubError::BadPercent);
            }
            let next = repl[i + 1];
            if next == 37 {
                out.push(37);
                proof {
                    acc = acc.push(37u8);
                }
            } else if 48 <= next && next <= 57 {
                let ghost before = out@;
                match append_capture(out, m, s, next - 48) {
                    Ok(()) => {},
                    Err(e) => {
                        return Err(e);
                    },
                }
                proof {
                    let ct = capture_text(
                        s@,
                        m.start as int,
                        m.end as int,
                        m.captures@,
                        (next - 48) as int,
                    );
                    assert(ct is Ok);
                    let t0 = ct->Ok_0;
                    assert(out@ == before + t0);
                    assert(acc + t0 == acc + t0);
                    acc = acc + t0;
                    assert(out@ =~= old(out)@ + acc);
                }
            } else {
                return Err(GsubError::BadPercent);
            }
            i = i + 2;
        } else {
            out.push(b);
            proof {
                acc = acc.push(b);
            }
            i = i + 1;
        }
    }
    Ok(())
}

/// The largest number of substitutions for the optional limit: negative
/// limits allow none, and no limit allows any number.
pub open spec fn max_subst(max_n: Option<i64>) -> int {
    match max_n {
        Some(n) => if n < 0 {
            0
        } else {
            n as int
        },
        None => u64::MAX as int,
    }
}

/// The measure that the substitution loop decreases: the bytes left, and
/// whether an empty match may still occur at the current offset.
pub open spec fn gsub_measure(len: int, offset: int, last: Option<int>) -> int {
    2 * (len - offset) + if last == Some(offset) {
        0int
    } else {
        1int
    }
}

/// The substitution loop of `gsub` with the replacement string `repl`:
/// from `offset`, having made `count` replacements (the last one ending at
/// `last`) and produced `out`, the final output and count.
pub open spec fn gsub_loop(
    s: Seq<u8>,
    pat: Seq<u8>,
    repl: Seq<u8>,
    max: int,
    offset: int,
    last: Option<int>,
    count: int,
    out: Seq<u8>,
) -> Result<(Seq<u8>, int), GsubError>
    decreases gsub_measure(s.len() as int, offset, last),
{
    let len = s.len() as int;
    if offset < 0 || offset > len {
        Ok((out, count))
    } else if count >= max {
        Ok((out + s.subrange(offset, len), count))
    } else {
        match find_spec(s, pat, offset) {
            Err(k) => Err(GsubError::Pattern(k)),
            Ok(None) => Ok((out + s.subrange(offset, len), count)),
            Ok(Some((ms, me, caps))) => if !(offset <= ms <= me <= len) {
                Ok((out, count))
            } else if ms == me && last == Some(me) {
                if offset < len {
                    gsub_loop(s, pat, repl, max, offset + 1, last, count, out.push(s[offset]))
                } else {
                    Ok((out, count))
                }
            } else {
                match expand_spec(repl, s, ms, me, captures_of(caps)) {
                    Err(e) => Err(e),
                    Ok(t) => {
                        let out2 = out + s.subrange(offset, ms) + t;
                        if is_anchored_spec(pat) {
                            Ok((out2 + s.subrange(me, len), count + 1))
                        } else {
                            gsub_loop(s, pat, repl, max, me, Some(me), count + 1, out2)
                        }
                    },
                }
            },
        }
    }
}

/// `string.gsub(s, pattern, repl, max_n)` with a replacement string: the
/// string with (up to `max_n`) matches replaced, and the number of
/// replacements.
pub open spec fn gsub_spec(s: Seq<u8>, pat: Seq<u8>, repl: Seq<u8>, max_n: Option<i64>) -> Result<
    (Seq<u8>, int),
    GsubError,
> {
    match validate_spec(pat) {
        Err(k) => Err(GsubError::Pattern(k)),
        Ok(_) => gsub_loop(s, pat, repl, max_subst(max_n), 0, None, 0, Seq::empty()),
    }
}

/// The runtime error for a replacement error.
pub fn gsub_error(e: GsubError) -> (r: LibError)
    requires
        e matches GsubError::BadCaptureIndex(d) ==> d <= 9,
        !(e is Pattern),
    ensures
        is_runtime_at(r, gsub_error_message(e), None, gsub_error_hints(e)),
{
    match e {
        GsubError::BadCaptureIndex(d) => {
            let pe = crate::lua_pattern::PatternError::new(
                PatternErrorKind::InvalidCaptureIndex(d),
            );
            runtime_error(pe.message)
        },
        _ => runtime_error_with(
            String::from_str("invalid use of '%' in replacement string"),
            None,
            "every `%` in a replacement string must be followed by a digit (`%0` is the whole match, `%1`..`%9` are the captures) or another `%` for a literal `%`",
        ),
    }
}

/// The output so far followed by the rest of the subject, with the count.
fn gsub_finish(mut result: Vec<u8>, s: &[u8], offset: usize, count: u64) -> (r: (Vec<u8>, i64))
    requires
        offset <= s@.len(),
        count <= i64::MAX,
    ensures
        r.0@ == result@ + s@.subrange(offset as int, s@.len() as int),
        r.1 == count,
{
    append_range(&mut result, s, offset, s.len());
    (result, count as i64)
}

/// `string.gsub(s, pattern, repl, max_n)` with a replacement string.
pub fn gsub(s: &[u8], pattern: &[u8], repl: &[u8], max_n: Option<i64>) -> (r: Result<
    (Vec<u8>, i64),
    LibError,
>)
    requires
        s@.len() < isize::MAX,
    ensures
        match gsub_spec(s@, pattern@, repl@, max_n) {
            Ok((out, count)) => r matches Ok((v, c)) && v@ == out && c == count,
            Err(e) => r matches Err(le) && is_runtime_at(le, gsub_error_message(e), None, gsub_error_hints(e)),
        },
        r matches Ok((v, c)) ==> (c == 0 ==> v@ == s@),
        is_anchored_spec(pattern@) ==> (r matches Ok((v, c)) ==> c <= 1),
{
    let pat = match Pattern::compile(pattern) {
        Ok(p) => p,
        Err(e) => {
            return Err(runtime_error(e.message));
        },
    };
    let max: u64 = match max_n {
        Some(k) => if k < 0 {
            0
        } else {
            k as u64
        },
        None => u64::MAX,
    };
    let n = s.len();
    let anchored = pat.is_anchored();
    let ghost target = gsub_loop(s@, pattern@, repl@, max as int, 0, None, 0, Seq::empty());
    assert(validate_spec(pattern@) is Ok);
    let mut result: Vec<u8> = Vec::new();
    let mut count: u64 = 0;
    let mut offset: usize = 0;
    let mut last: Option<usize> = None;
    loop
        invariant
            n == s@.len(),
            n < isize::MAX,
            pat@ == pattern@,
            anchored == is_anchored_spec(pattern@),
            max as int == max_subst(max_n),
            offset <= n,
            count <= max,
            count <= offset + (if opt_int(last) == Some(offset as int) {
                1int
            } else {
                0int
            }),
            last matches Some(x) ==> x <= offset,
            validate_spec(pattern@) is Ok,
            target == gsub_loop(s@, pattern@, repl@, max as int, 0, None, 0, Seq::empty()),
            gsub_loop(s@, pattern@, repl@, max as int, offset as int, opt_int(last), count as int, result@)
                == target,
            count == 0 ==> result@ == s@.subrange(0, offset as int),
            anchored ==> count == 0,
        decreases gsub_measure(n as int, offset as int, opt_int(last)),
    {
        if count >= max {
            assert(s@.subrange(0, offset as int) + s@.subrange(offset as int, n as int) =~= s@);
            return Ok(gsub_finish(result, s, offset, count));
        }
        proof {
            crate::lua_pattern::lemma_find_spec_start(s@, pattern@, offset as int);
        }
        match pat.find(s, offset) {
            Err(e) => {
                return Err(runtime_error(e.message));
            },
            Ok(None) => {
                return Ok(gsub_finish(result, s, offset, count));
            },
            Ok(Some(m)) => {
                if m.start == m.end && last == Some(m.end) {
                    if offset < n {
                        result.push(s[offset]);
                        offset = offset + 1;
                    } else {
                        return Ok(gsub_finish(result, s, offset, count));
                    }
                } else {
                    append_range(&mut result, s, offset, m.start);
                    match expand_replacement(&mut result, repl, &m, s) {
                        Ok(()) => {},
                        Err(e) => {
                            return Err(gsub_error(e));
                        },
                    }
                    count = count + 1;
                    last = Some(m.end);
                    offset = m.end;
                    if anchored {
                        return Ok(gsub_finish(result, s, offset, count));
                    }
                }
            },
        }
    }
}

// ---------------------------------------------------------------------------
// gsub with a table or a function as replacement
// ---------------------------------------------------------------------------

/// What a replacement table or function produced for one match.
#[derive(Debug)]
pub enum ReplValue {
    /// `nil` or `false`: keep the matched text.
    Keep,
    /// A string (or a number rendered as text): the replacement.
    Text(Vec<u8>),
    /// An integer: replaced by its decimal rendering.
    Integer(i64),
    /// Any other value; the payload is its type name.
    Invalid(String),
}

/// The hint shown with a replacement value of the wrong type.
pub open spec fn replacement_hint() -> Seq<char> {
    "the third argument to `string.gsub` must produce a string or a number per match; convert other types via `tostring` first"@
}

/// The bytes that replace `matched` for the value `v`, or `None` for an
/// invalid value.
pub open spec fn repl_value_text(v: ReplValue, matched: Seq<u8>) -> Option<Seq<u8>> {
    match v {
        ReplValue::Keep => Some(matched),
        ReplValue::Text(t) => Some(t@),
        ReplValue::Integer(n) => Some(int_decimal(n as int)),
        ReplValue::Invalid(_) => None,
    }
}

/// The outcome of advancing a substitution to its next replacement.
pub enum Advance {
    /// The pattern failed.
    Failed(PatternErrorKind),
    /// No more replacements: the final output and count.
    Done(Seq<u8>, int),
    /// A match `[ms, me)` with its capture slots needs a replacement; the
    /// output now holds everything before it.
    Found(int, int, Seq<crate::lua_pattern::CaptureSlot>, Seq<u8>),
}

/// Advance the substitution from `offset` (see `gsub_loop`) to the next
/// match that gets replaced, or to its end.
pub open spec fn gsub_advance(
    s: Seq<u8>,
    pat: Seq<u8>,
    max: int,
    offset: int,
    last: Option<int>,
    count: int,
    out: Seq<u8>,
) -> Advance
    decreases gsub_measure(s.len() as int, offset, last),
{
    let len = s.len() as int;
    if offset < 0 || offset > len {
        Advance::Done(out, count)
    } else if count >= max {
        Advance::Done(out + s.subrange(offset, len), count)
    } else {
        match find_spec(s, pat, offset) {
            Err(k) => Advance::Failed(k),
            Ok(None) => Advance::Done(out + s.subrange(offset, len), count),
            Ok(Some((ms, me, caps))) => if !(offset <= ms <= me <= len) {
                Advance::Done(out, count)
            } else if ms == me && last == Some(me) {
                if offset < len {
                    gsub_advance(s, pat, max, offset + 1, last, count, out.push(s[offset]))
                } else {
                    Advance::Done(out, count)
                }
            } else {
                Advance::Found(ms, me, caps, out + s.subrange(offset, ms))
            },
        }
    }
}

/// The key looked up in a replacement table: the first capture, or the
/// whole match when the pattern has none.
pub open spec fn table_key_ok(key: LuaCapture, ms: int, me: int, caps: Seq<Capture>, s: Seq<u8>) -> bool {
    if caps.len() == 0 {
        key matches LuaCapture::Bytes(b) && b@ == s.subrange(ms, me)
    } else {
        capture_value_ok(key, caps[0], s)
    }
}

/// What a replacement table or function is asked for one match: the key
/// for a table, and the arguments for a function.
#[derive(Debug)]
pub struct ReplRequest {
    pub key: LuaCapture,
    pub args: Vec<LuaCapture>,
}

/// A substitution whose replacements come from outside: a table lookup or
/// a function call per match.  `next_match` finds the next match to
/// replace, the caller resolves the value, and `supply` applies it.
pub struct GsubMachine {
    s: Vec<u8>,
    pat: Pattern,
    max: u64,
    result: Vec<u8>,
    count: u64,
    offset: usize,
    last: Option<usize>,
    pending: Option<Match>,
    done: bool,
}

impl GsubMachine {
    /// The subject.
    pub closed spec fn subject(&self) -> Seq<u8> {
        self.s@
    }

    /// The pattern.
    pub closed spec fn pattern(&self) -> Seq<u8> {
        self.pat@
    }

    /// The limit on the number of replacements.
    pub closed spec fn max(&self) -> int {
        self.max as int
    }

    /// The output produced so far.
    pub closed spec fn output(&self) -> Seq<u8> {
        self.result@
    }

    /// The number of replacements made.
    pub closed spec fn count(&self) -> int {
        self.count as int
    }

    /// The offset where the search resumes.
    pub closed spec fn offset(&self) -> int {
        self.offset as int
    }

    /// The end of the last replaced match.
    pub closed spec fn last_end(&self) -> Option<int> {
        opt_int(self.last)
    }

    /// The match waiting for its replacement value, as `(start, end)`.
    pub closed spec fn pending(&self) -> Option<(int, int)> {
        match self.pending {
            Some(m) => Some((m.start as int, m.end as int)),
            None => None,
        }
    }

    /// Whether the substitution is over.
    pub closed spec fn is_done(&self) -> bool {
        self.done
    }

    /// The internal invariant.
    pub closed spec fn wf(&self) -> bool {
        &&& self.s@.len() < isize::MAX
        &&& self.offset <= self.s@.len()
        &&& self.count <= self.max
        &&& self.count <= self.offset + (if opt_int(self.last) == Some(self.offset as int) {
            1int
        } else {
            0int
        })
        &&& self.last matches Some(x) ==> x <= self.offset
        &&& validate_spec(self.pat@) is Ok
        &&& self.pending matches Some(m) ==> {
            &&& match_wf(m, self.s@.len() as int)
            &&& self.offset <= m.start
            &&& !(m.start == m.end && opt_int(self.last) == Some(m.end as int))
            &&& self.count < self.max
        }
        &&& is_anchored_spec(self.pat@) ==> self.count <= 1 && (self.count == 1 ==> self.done)
        &&& self.count == 0 ==> self.result@ == if self.done {
            self.s@
        } else {
            self.s@.subrange(
                0,
                match self.pending {
                    Some(m) => m.start as int,
                    None => self.offset as int,
                },
            )
        }
    }

    /// Start a substitution of matches of `pattern` in `s`, replacing at
    /// most `max_n` of them.
    pub fn new(s: &[u8], pattern: &[u8], max_n: Option<i64>) -> (r: Result<GsubMachine, LibError>)
        requires
            s@.len() < isize::MAX,
        ensures
            match validate_spec(pattern@) {
                Err(k) => r matches Err(e) && is_pattern_error(e, k),
                Ok(_) => r matches Ok(g) && g.wf() && g.subject() == s@ && g.pattern() == pattern@
                    && g.max() == max_subst(max_n) && g.output() == Seq::<u8>::empty() && g.count()
                    == 0 && g.offset() == 0 && g.last_end() is None && g.pending() is None
                    && !g.is_done(),
            },
    {
        let pat = match Pattern::compile(pattern) {
            Ok(p) => p,
            Err(e) => {
                return Err(runtime_error(e.message));
            },
        };
        let max: u64 = match max_n {
            Some(k) => if k < 0 {
                0
            } else {
                k as u64
            },
            None => u64::MAX,
        };
        let n = s.len();
        let v = copy_range(s, 0, n);
        assert(s@.subrange(0, n as int) =~= s@);
        let g = GsubMachine {
            s: v,
            pat,
            max,
            result: Vec::new(),
            count: 0,
            offset: 0,
            last: None,
            pending: None,
            done: false,
        };
        assert(g.s@.subrange(0, 0) =~= g.result@);
        Ok(g)
    }

    /// Find the next match to replace and say what to ask the replacement
    /// table or function; `None` when the substitution is over.
    pub fn next_match(&mut self) -> (r: Result<Option<ReplRequest>, LibError>)
        requires
            old(self).wf(),
            old(self).pending() is None,
            !old(self).is_done(),
        ensures
            final(self).subject() == old(self).subject(),
            final(self).pattern() == old(self).pattern(),
            final(self).max() == old(self).max(),
            final(self).count() == old(self).count(),
            r matches Ok(None) ==> (final(self).count() == 0 ==> final(self).output() == final(self).subject()),
            match gsub_advance(
                old(self).subject(),
                old(self).pattern(),
                old(self).max(),
                old(self).offset(),
                old(self).last_end(),
                old(self).count(),
                old(self).output(),
            ) {
                Advance::Failed(k) => r matches Err(e) && is_pattern_error(e, k),
                Advance::Done(out, count) => r matches Ok(None) && final(self).is_done()
                    && final(self).output() == out && count == old(self).count()
                    && final(self).wf(),
                Advance::Found(ms, me, caps, out) => r matches Ok(Some(req)) && final(self).wf()
                    && !final(self).is_done() && final(self).pending() == Some((ms, me))
                    && final(self).output() == out && final(self).last_end() == old(self).last_end()
                    && table_key_ok(req.key, ms, me, captures_of(caps), old(self).subject())
                    && extracted_ok(req.args@, ms, me, captures_of(caps), old(self).subject()),
            },
    {
        let n = self.s.len();
        let ghost s0 = self.s@;
        let ghost target = gsub_advance(
            self.s@,
            self.pat@,
            self.max as int,
            self.offset as int,
            opt_int(self.last),
            self.count as int,
            self.result@,
        );
        loop
            invariant
                self.wf(),
                self.s@ == s0,
                n == s0.len(),
                self.pending is None,
                !self.done,
                s0 == old(self).subject(),
                self.pat@ == old(self).pattern(),
                self.max == old(self).max(),
                self.count == old(self).count(),
                self.last == old(self).last,
                target == gsub_advance(
                    old(self).subject(),
                    old(self).pattern(),
                    old(self).max(),
                    old(self).offset(),
                    old(self).last_end(),
                    old(self).count(),
                    old(self).output(),
                ),
                gsub_advance(
                    s0,
                    self.pat@,
                    self.max as int,
                    self.offset as int,
                    opt_int(self.last),
                    self.count as int,
                    self.result@,
                ) == target,
            decreases gsub_measure(n as int, self.offset as int, opt_int(self.last)),
        {
            proof {
                assert(s0.subrange(0, self.offset as int) + s0.subrange(self.offset as int, n as int) =~= s0);
            }
            if self.count >= self.max {
                append_range(&mut self.result, self.s.as_slice(), self.offset, n);
                self.done = true;
                return Ok(None);
            }
            proof {
                crate::lua_pattern::lemma_find_spec_start(s0, self.pat@, self.offset as int);
            }
            match self.pat.find(self.s.as_slice(), self.offset) {
                Err(e) => {
                    return Err(runtime_error(e.message));
                },
                Ok(None) => {
                    append_range(&mut self.result, self.s.as_slice(), self.offset, n);
                    self.done = true;
                    return Ok(None);
                },
                Ok(Some(m)) => {
                    if m.start == m.end && self.last == Some(m.end) {
                        if self.offset < n {
                            let b = self.s[self.offset];
                            proof {
                                assert(s0.subrange(0, self.offset + 1) =~= s0.subrange(0, self.offset as int).push(b));
                            }
                            self.result.push(b);
                            self.offset = self.offset + 1;
                        } else {
                            assert(s0.subrange(0, n as int) =~= s0);
                            self.done = true;
                            return Ok(None);
                        }
                    } else {
                        proof {
                            assert(s0.subrange(0, self.offset as int) + s0.subrange(self.offset as int, m.start as int)
                                =~= s0.subrange(0, m.start as int));
                        }
                        append_range(&mut self.result, self.s.as_slice(), self.offset, m.start);
                        let key = if m.captures.len() == 0 {
                            LuaCapture::Bytes(copy_range(self.s.as_slice(), m.start, m.end))
                        } else {
                            assert(capture_wf(m.captures@[0], n as int));
                            capture_to_value(&m.captures[0], self.s.as_slice())
                        };
                        let args = extract_captures(&m, self.s.as_slice());
                        self.pending = Some(m);
                        return Ok(Some(ReplRequest { key, args }));
                    }
                },
            }
        }
    }

    /// Apply the value resolved for the pending match.  An invalid value is
    /// an error naming its type.
    pub fn supply(&mut self, v: ReplValue) -> (r: Result<(), LibError>)
        requires
            old(self).wf(),
            old(self).pending() is Some,
            !old(self).is_done(),
        ensures
            ({
                let (ms, me) = old(self).pending()->0;
                let matched = old(self).subject().subrange(ms, me);
                match repl_value_text(v, matched) {
                    None => r matches Err(e) && v matches ReplValue::Invalid(tn) && is_runtime_at(
                        e,
                        "invalid replacement value (a "@ + tn@ + ")"@,
                        Some(3usize),
                        seq![replacement_hint()],
                    ),
                    Some(t) => {
                        &&& r is Ok
                        &&& final(self).wf()
                        &&& final(self).subject() == old(self).subject()
                        &&& final(self).pattern() == old(self).pattern()
                        &&& final(self).max() == old(self).max()
                        &&& final(self).count() == old(self).count() + 1
                        &&& final(self).offset() == me
                        &&& final(self).last_end() == Some(me)
                        &&& final(self).pending() is None
                        &&& if is_anchored_spec(old(self).pattern()) {
                            &&& final(self).is_done()
                            &&& final(self).output() == old(self).output() + t
                                + old(self).subject().subrange(me, old(self).subject().len() as int)
                        } else {
                            &&& !final(self).is_done()
                            &&& final(self).output() == old(self).output() + t
                        }
                    },
                }
            }),
    {
        let m = match self.pending.take() {
            Some(m) => m,
            None => {
                return Ok(());
            },
        };
        match v {
            ReplValue::Keep => append_range(&mut self.result, self.s.as_slice(), m.start, m.end),
            ReplValue::Text(t) => append_all(&mut self.result, t.as_slice()),
            ReplValue::Integer(k) => push_decimal(&mut self.result, k),
            ReplValue::Invalid(tn) => {
                let mut msg = String::from_str("invalid replacement value (a ");
                msg.append(tn.as_str());
                msg.append(")");
                proof {
                    reveal_strlit("invalid replacement value (a ");
                    reveal_strlit(")");
                }
                return Err(runtime_error_with(msg, Some(3), "the third argument to `string.gsub` must produce a string or a number per match; convert other types via `tostring` first"));
            },
        }
        self.count = self.count + 1;
        self.last = Some(m.end);
        self.offset = m.end;
        if self.pat.is_anchored() {
            let n = self.s.len();
            append_range(&mut self.result, self.s.as_slice(), m.end, n);
            self.done = true;
        }
        Ok(())
    }

    /// The output and the number of replacements.
    pub fn finish(self) -> (r: (Vec<u8>, i64))
        requires
            self.wf(),
        ensures
            r.0@ == self.output(),
            r.1 == self.count(),
            0 <= r.1 <= self.max(),
            self.is_done() && r.1 == 0 ==> r.0@ == self.subject(),
            is_anchored_spec(self.pattern()) ==> r.1 <= 1,
    {
        (self.result, self.count as i64)
    }
}

// ---------------------------------------------------------------------------
// Laws
// ---------------------------------------------------------------------------

/// `string.sub(s, 1, -1)` is the whole string.
pub proof fn law_sub_whole(s: Seq<u8>)
    ensures
        sub_spec(s, 1, -1) == s,
{
    if s.len() > 0 {
        assert(s.subrange(0, s.len() as int) =~= s);
    }
}

/// Upper-casing twice is upper-casing once.
pub proof fn law_upper_idempotent(s: Seq<u8>)
    ensures
        s.map_values(|b: u8| upper_byte(b)).map_values(|b: u8| upper_byte(b)) == s.map_values(
            |b: u8| upper_byte(b),
        ),
{
    assert(s.map_values(|b: u8| upper_byte(b)).map_values(|b: u8| upper_byte(b)) =~= s.map_values(
        |b: u8| upper_byte(b),
    ));
}

/// Lower-casing twice is lower-casing once.
pub proof fn law_lower_idempotent(s: Seq<u8>)
    ensures
        s.map_values(|b: u8| lower_byte(b)).map_values(|b: u8| lower_byte(b)) == s.map_values(
            |b: u8| lower_byte(b),
        ),
{
    assert(s.map_values(|b: u8| lower_byte(b)).map_values(|b: u8| lower_byte(b)) =~= s.map_values(
        |b: u8| lower_byte(b),
    ));
}

/// Reversing twice gives the string back.
pub proof fn law_reverse_involution(s: Seq<u8>)
    ensures
        s.reverse().reverse() == s,
{
    assert(s.reverse().reverse() =~= s);
}

/// `rep(s, n, sep)` has `n` copies of `s` and `n - 1` of `sep`.
pub proof fn law_rep_length(s: Seq<u8>, sep: Seq<u8>, n: int)
    requires
        n >= 1,
    ensures
        rep_spec(s, sep, n).len() == n * s.len() + (n - 1) * sep.len(),
    decreases n,
{
    if n > 1 {
        law_rep_length(s, sep, n - 1);
        assert(n * s.len() == (n - 1) * s.len() + s.len()) by (nonlinear_arith);
        assert((n - 1) * sep.len() == (n - 2) * sep.len() + sep.len()) by (nonlinear_arith);
    } else {
        assert(n * s.len() == s.len()) by (nonlinear_arith)
            requires
                n == 1,
        ;
        assert((n - 1) * sep.len() == 0) by (nonlinear_arith)
            requires
                n == 1,
        ;
    }
}

proof fn lemma_skip_ws_stable(s: Seq<u8>, i: int)
    requires
        0 <= i <= s.len(),
    ensures
        skip_ws(s, i) == s.len() || !is_ws(s[skip_ws(s, i)]),
        forall|k: int| i <= k < skip_ws(s, i) ==> is_ws(#[trigger] s[k]),
    decreases s.len() - i,
{
    lemma_skip_ws_bounds(s, i);
    if i < s.len() && is_ws(s[i]) {
        lemma_skip_ws_stable(s, i + 1);
    }
}

proof fn lemma_skip_ws_back_stable(s: Seq<u8>, j: int)
    requires
        0 <= j <= s.len(),
    ensures
        skip_ws_back(s, j) == 0 || !is_ws(s[skip_ws_back(s, j) - 1]),
        forall|k: int| skip_ws_back(s, j) <= k < j ==> is_ws(#[trigger] s[k]),
    decreases j,
{
    lemma_skip_ws_back_bounds(s, j);
    if 0 < j && is_ws(s[j - 1]) {
        lemma_skip_ws_back_stable(s, j - 1);
    }
}

/// Trimming a trimmed string changes nothing.
pub proof fn law_trim_idempotent(s: Seq<u8>)
    ensures
        trim_spec(trim_spec(s)) == trim_spec(s),
{
    let a = skip_ws(s, 0);
    let b = skip_ws_back(s, s.len() as int);
    lemma_skip_ws_stable(s, 0);
    lemma_skip_ws_back_stable(s, s.len() as int);
    lemma_skip_ws_bounds(s, 0);
    lemma_skip_ws_back_bounds(s, s.len() as int);
    let t = trim_spec(s);
    if a < b {
        assert(t == s.subrange(a, b));
        assert(!is_ws(t[0]));
        assert(!is_ws(t[t.len() - 1]));
        assert(skip_ws(t, 0) == 0);
        assert(skip_ws_back(t, t.len() as int) == t.len());
        assert(t.subrange(0, t.len() as int) =~= t);
    } else {
        assert(t.len() == 0);
        assert(skip_ws(t, 0) == 0);
        assert(skip_ws_back(t, 0) == 0);
    }
}

/// Removing a prefix that was put in front gives the rest back.
pub proof fn law_trim_prefix_after_concat(prefix: Seq<u8>, s: Seq<u8>)
    ensures
        has_prefix(prefix + s, prefix),
        (prefix + s).subrange(prefix.len() as int, (prefix + s).len() as int) == s,
{
    assert((prefix + s).subrange(0, prefix.len() as int) =~= prefix);
    assert((prefix + s).subrange(prefix.len() as int, (prefix + s).len() as int) =~= s);
}

/// The pieces joined by the separator.
pub open spec fn join_with(ps: Seq<Seq<u8>>, sep: Seq<u8>) -> Seq<u8>
    decreases ps.len(),
{
    if ps.len() == 0 {
        Seq::empty()
    } else if ps.len() == 1 {
        ps[0]
    } else {
        ps[0] + sep + join_with(ps.drop_first(), sep)
    }
}

proof fn lemma_split_pieces_nonempty(s: Seq<u8>, sep: Seq<u8>, start: int)
    requires
        0 <= start <= s.len(),
        sep.len() > 0,
    ensures
        split_pieces(s, sep, start).len() >= 1,
    decreases s.len() - start,
{
    lemma_first_occ_from(s, sep, start);
    match first_occ_from(s, sep, start) {
        Some(p) => {
            lemma_split_pieces_nonempty(s, sep, p + sep.len());
        },
        None => {},
    }
}

proof fn lemma_split_join(s: Seq<u8>, sep: Seq<u8>, start: int)
    requires
        0 <= start <= s.len(),
        sep.len() > 0,
    ensures
        join_with(split_pieces(s, sep, start), sep) == s.subrange(start, s.len() as int),
    decreases s.len() - start,
{
    lemma_first_occ_from(s, sep, start);
    match first_occ_from(s, sep, start) {
        Some(p) => {
            let rest = split_pieces(s, sep, p + sep.len());
            lemma_split_join(s, sep, p + sep.len());
            lemma_split_pieces_nonempty(s, sep, p + sep.len());
            let ps = split_pieces(s, sep, start);
            assert(ps == seq![s.subrange(start, p)] + rest);
            assert(ps.drop_first() =~= rest);
            assert(ps[0] == s.subrange(start, p));
            assert(s.subrange(p, p + sep.len()) == sep);
            assert(s.subrange(start, s.len() as int) =~= s.subrange(start, p) + sep
                + s.subrange(p + sep.len(), s.len() as int));
        },
        None => {},
    }
}

/// Splitting at a non-empty separator and joining the pieces with it
/// gives the string back.
pub proof fn law_split_then_join(s: Seq<u8>, sep: Seq<u8>)
    requires
        sep.len() > 0,
    ensures
        join_with(split_spec(s, sep), sep) == s,
{
    lemma_split_join(s, sep, 0);
    assert(s.subrange(0, s.len() as int) =~= s);
}

/// A truncated string never exceeds the budget.
pub proof fn law_truncate_fits(s: Seq<u8>, max: int, ellipsis: Seq<u8>)
    requires
        max >= 0,
    ensures
        truncate_spec(s, max, ellipsis).len() <= max || truncate_spec(s, max, ellipsis) == s,
        s.len() > max ==> truncate_spec(s, max, ellipsis).len() == max,
{
}

/// `gsub` with a limit of zero replaces nothing.
pub proof fn law_gsub_zero_limit(s: Seq<u8>, pat: Seq<u8>, repl: Seq<u8>)
    requires
        validate_spec(pat) is Ok,
    ensures
        gsub_spec(s, pat, repl, Some(0)) == Ok::<(Seq<u8>, int), GsubError>((s, 0)),
{
    assert(Seq::<u8>::empty() + s.subrange(0, s.len() as int) =~= s);
}

proof fn lemma_gsub_loop_count(
    s: Seq<u8>,
    pat: Seq<u8>,
    repl: Seq<u8>,
    max: int,
    offset: int,
    last: Option<int>,
    count: int,
    out: Seq<u8>,
)
    requires
        count <= max,
    ensures
        gsub_loop(s, pat, repl, max, offset, last, count, out) matches Ok((_, c)) ==> count <= c
            <= max,
    decreases gsub_measure(s.len() as int, offset, last),
{
    let len = s.len() as int;
    if 0 <= offset <= len && count < max {
        match find_spec(s, pat, offset) {
            Ok(Some((ms, me, caps))) => {
                if offset <= ms <= me <= len {
                    if ms == me && last == Some(me) {
                        if offset < len {
                            lemma_gsub_loop_count(
                                s,
                                pat,
                                repl,
                                max,
                                offset + 1,
                                last,
                                count,
                                out.push(s[offset]),
                            );
                        }
                    } else {
                        match expand_spec(repl, s, ms, me, captures_of(caps)) {
                            Ok(t) => {
                                let out2 = out + s.subrange(offset, ms) + t;
                                if !is_anchored_spec(pat) {
                                    lemma_gsub_loop_count(
                                        s,
                                        pat,
                                        repl,
                                        max,
                                        me,
                                        Some(me),
                                        count + 1,
                                        out2,
                                    );
                                }
                            },
                            Err(_) => {},
                        }
                    }
                }
            },
            _ => {},
        }
    }
}

/// `gsub` never makes more replacements than its limit allows.
pub proof fn law_gsub_count_within_limit(s: Seq<u8>, pat: Seq<u8>, repl: Seq<u8>, max_n: Option<i64>)
    ensures
        gsub_spec(s, pat, repl, max_n) matches Ok((_, c)) ==> 0 <= c <= max_subst(max_n),
{
    if validate_spec(pat) is Ok {
        lemma_gsub_loop_count(s, pat, repl, max_subst(max_n), 0, None, 0, Seq::empty());
    }
}


/// In a replacement string, `%0` stands for the whole match, whatever
/// captures the pattern has.
pub proof fn law_percent_zero_is_whole_match(s: Seq<u8>, ms: int, me: int, caps: Seq<Capture>)
    ensures
        expand_spec(seq![37u8, 48u8], s, ms, me, caps) == Ok::<Seq<u8>, GsubError>(s.subrange(ms, me)),
{
    let r = seq![37u8, 48u8];
    assert(expand_from(r, 2, s, ms, me, caps, Seq::<u8>::empty() + s.subrange(ms, me)) == Ok::<Seq<u8>, GsubError>(
        Seq::<u8>::empty() + s.subrange(ms, me),
    ));
    assert(Seq::<u8>::empty() + s.subrange(ms, me) =~= s.subrange(ms, me));
}

proof fn lemma_gsub_whole_match_loop(
    s: Seq<u8>,
    pat: Seq<u8>,
    max: int,
    offset: int,
    last: Option<int>,
    count: int,
    out: Seq<u8>,
)
    requires
        s.len() <= usize::MAX,
        0 <= offset <= s.len(),
        out == s.subrange(0, offset),
    ensures
        gsub_loop(s, pat, seq![37u8, 48u8], max, offset, last, count, out) matches Ok((r, _)) ==> r == s,
    decreases gsub_measure(s.len() as int, offset, last),
{
    let len = s.len() as int;
    let repl = seq![37u8, 48u8];
    assert(out + s.subrange(offset, len) =~= s);
    if count < max {
        crate::lua_pattern::lemma_find_spec_start(s, pat, offset);
        crate::lua_pattern::law_find_captures_inside(s, pat, offset);
        match find_spec(s, pat, offset) {
            Ok(Some((ms, me, caps))) => {
                if ms == me && last == Some(me) {
                    if offset < len {
                        assert(out.push(s[offset]) =~= s.subrange(0, offset + 1));
                        lemma_gsub_whole_match_loop(s, pat, max, offset + 1, last, count, out.push(s[offset]));
                    } else {
                        assert(out =~= s);
                    }
                } else {
                    law_percent_zero_is_whole_match(s, ms, me, captures_of(caps));
                    let out2 = out + s.subrange(offset, ms) + s.subrange(ms, me);
                    assert(out2 =~= s.subrange(0, me));
                    assert(out2 + s.subrange(me, len) =~= s);
                    if !is_anchored_spec(pat) {
                        lemma_gsub_whole_match_loop(s, pat, max, me, Some(me), count + 1, out2);
                    }
                }
            },
            _ => {},
        }
    }
}

/// Replacing every match by `%0` (the whole match) gives the subject
/// back unchanged.
pub proof fn law_gsub_whole_match_unchanged(s: Seq<u8>, pat: Seq<u8>, max_n: Option<i64>)
    requires
        s.len() <= usize::MAX,
    ensures
        gsub_spec(s, pat, seq![37u8, 48u8], max_n) matches Ok((r, _)) ==> r == s,
{
    if validate_spec(pat) is Ok {
        assert(Seq::<u8>::empty() =~= s.subrange(0, 0));
        lemma_gsub_whole_match_loop(s, pat, max_subst(max_n), 0, None, 0, Seq::empty());
    }
}


/// `trim` removes exactly the ASCII white space (tab, line feed, vertical
/// tab, form feed, carriage return, space) at both ends: the result is a
/// slice of the input that neither starts nor ends with such a byte, and
/// every byte cut off before or after it is one; an empty result means the
/// input was all white space.
pub proof fn law_trim_strips_ascii_whitespace(s: Seq<u8>)
    ensures
        trim_spec(s).len() == 0 ==> forall|k: int| 0 <= k < s.len() ==> (s[k] == 9 || s[k] == 10 || s[k] == 11 || s[k] == 12 || s[k] == 13 || s[k] == 32),
        trim_spec(s).len() > 0 ==> exists|i: int, j: int|
            0 <= i < j <= s.len() && #[trigger] s.subrange(i, j) == trim_spec(s) && !(s[i] == 9 || s[i] == 10 || s[i] == 11 || s[i] == 12 || s[i] == 13 || s[i] == 32) && !(s[j - 1] == 9 || s[j - 1] == 10 || s[j - 1] == 11 || s[j - 1] == 12 || s[j - 1] == 13 || s[j - 1] == 32) && (forall|k: int|
                0 <= k < i ==> (s[k] == 9 || s[k] == 10 || s[k] == 11 || s[k] == 12 || s[k] == 13 || s[k] == 32)) && (forall|k: int| j <= k < s.len() ==> (s[k] == 9 || s[k] == 10 || s[k] == 11 || s[k] == 12 || s[k] == 13 || s[k] == 32)),
{
    let a = skip_ws(s, 0);
    let b = skip_ws_back(s, s.len() as int);
    lemma_skip_ws_stable(s, 0);
    lemma_skip_ws_back_stable(s, s.len() as int);
    lemma_skip_ws_bounds(s, 0);
    lemma_skip_ws_back_bounds(s, s.len() as int);
    if a < b {
        assert(trim_spec(s) == s.subrange(a, b));
        assert(!is_ws(s[a]) && !is_ws(s[b - 1]));
    } else {
        assert forall|k: int| 0 <= k < s.len() implies (s[k] == 9 || s[k] == 10 || s[k] == 11 || s[k] == 12 || s[k] == 13 || s[k] == 32) by {
            if k >= a {
                assert(b <= a);
                assert(is_ws(s[k]));
            }
            assert(is_ws(s[k]));
        }
    }
}


/// In a replacement string `%%` stands for `%`; `%1` for the whole match
/// when the pattern has no captures; and `%k` (1 to 9) for the text of the
/// k-th capture when it is a substring capture.
pub proof fn law_percent_escapes(s: Seq<u8>, ms: int, me: int, caps: Seq<Capture>, k: int)
    requires
        1 <= k <= 9,
    ensures
        expand_spec(seq![37u8, 37u8], s, ms, me, caps) == Ok::<Seq<u8>, GsubError>(seq![37u8]),
        caps.len() == 0 ==> expand_spec(seq![37u8, 49u8], s, ms, me, caps) == Ok::<Seq<u8>, GsubError>(
            s.subrange(ms, me),
        ),
        k <= caps.len() ==> (caps[k - 1] matches Capture::Span { start, end } ==> expand_spec(
            seq![37u8, (48 + k) as u8],
            s,
            ms,
            me,
            caps,
        ) == Ok::<Seq<u8>, GsubError>(s.subrange(start as int, end as int))),
{
    let e = Seq::<u8>::empty();
    assert(expand_from(seq![37u8, 37u8], 2, s, ms, me, caps, e.push(37u8)) == Ok::<Seq<u8>, GsubError>(e.push(37u8)));
    assert(e.push(37u8) =~= seq![37u8]);
    assert(e + s.subrange(ms, me) =~= s.subrange(ms, me));
    let t = seq![37u8, (48 + k) as u8];
    assert(t[1] - 48 == k);
    if k <= caps.len() {
        if let Capture::Span { start, end } = caps[k - 1] {
            assert(e + s.subrange(start as int, end as int) =~= s.subrange(start as int, end as int));
            assert(expand_from(t, 2, s, ms, me, caps, e + s.subrange(start as int, end as int)) == Ok::<
                Seq<u8>,
                GsubError,
            >(e + s.subrange(start as int, end as int)));
        }
    }
    assert(expand_from(seq![37u8, 49u8], 2, s, ms, me, caps, e + s.subrange(ms, me)) == Ok::<Seq<u8>, GsubError>(
        e + s.subrange(ms, me),
    ));
}

} // verus!
