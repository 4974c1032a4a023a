//! The `regex` library: registration, and the captures of a match with
//! the expansion of `$N` / `${name}` replacement templates.
use vstd::prelude::*;
use crate::env::{GlobalEnv, GlobalView, Module, install_module};
use crate::error::LibError;
use crate::byte_str::{append_all, append_range, copy_range};
use crate::decimal::{append_digits, ascii_text, nat_digits};
use crate::error::is_bad_argument_got;
use vstd::utf8::{valid_first_scalar, valid_utf8};
use bstr::ByteSlice;

verus! {

/// Register the userdata types `Regex`, `Captures`, `BytesRegex` and
/// `BytesCaptures`, and install the `regex` library table as the `regex`
/// global.
pub fn register(env: &mut GlobalEnv) -> (r: Result<(), LibError>)
    ensures
        r is Ok,
        forall|n: Seq<char>|
            #[trigger] final(env).global(n) == if n == "regex"@ {
                Some(GlobalView::Table(seq![Module::Regex]))
            } else {
                old(env).global(n)
            },
        forall|n: Seq<char>| #[trigger]
            final(env).has_module_type(n) == (old(env).has_module_type(n) || n == "regex"@),
        forall|n: Seq<char>| #[trigger]
            final(env).has_userdata_type(n) == (old(env).has_userdata_type(n) || n == "Regex"@
                || n == "Captures"@ || n == "BytesRegex"@ || n == "BytesCaptures"@),
        forall|n: Seq<char>| #[trigger] final(env).loaded(n) == old(env).loaded(n),
        final(env).string_index() == old(env).string_index(),
        final(env).package_path() == old(env).package_path(),
        final(env).has_module_loader() == old(env).has_module_loader(),
{
    env.register_userdata_type("Regex");
    env.register_userdata_type("Captures");
    env.register_userdata_type("BytesRegex");
    env.register_userdata_type("BytesCaptures");
    install_module(env, "regex", Module::Regex);
    Ok(())
}

// ---------------------------------------------------------------------------
// UTF-8 arguments
// ---------------------------------------------------------------------------

/// `k` is where UTF-8 validation of `b` stops: the bytes before it are
/// valid UTF-8 and no scalar value starts at it.
pub open spec fn first_bad_byte(b: Seq<u8>, k: int) -> bool {
    &&& 0 <= k < b.len()
    &&& valid_utf8(b.subrange(0, k))
    &&& !valid_first_scalar(b.subrange(k, b.len() as int))
}

/// `bstr::ByteSlice::to_str` on `b`, reduced to where it fails: `None`
/// when `b` is valid UTF-8, else the length of the valid prefix that the
/// error reports (`Utf8Error::valid_up_to`).
#[verifier::external_body]
pub(crate) fn utf8_error_at(b: &[u8]) -> (r: Option<usize>)
    ensures
        r is None <==> valid_utf8(b@),
        r matches Some(k) ==> first_bad_byte(b@, k as int),
{
    b.to_str().err().map(|e| e.valid_up_to())
}

/// The description of bytes that are not UTF-8, naming the 1-based
/// position of the first bad byte.
pub open spec fn invalid_utf8_text(k: int) -> Seq<char> {
    "invalid UTF-8 at byte "@ + ascii_text(nat_digits((k + 1) as nat))
}

/// Check that argument `position` of `function` is UTF-8; when it is not,
/// a bad-argument error expecting `expected` and naming the first bad byte.
pub fn require_utf8(b: &[u8], function: &str, position: usize, expected: &str) -> (r: Result<
    (),
    LibError,
>)
    ensures
        r is Ok <==> valid_utf8(b@),
        r matches Err(e) ==> exists|k: int|
            first_bad_byte(b@, k) && is_bad_argument_got(
                e,
                position,
                function@,
                expected@,
                invalid_utf8_text(k),
            ),
{
    match utf8_error_at(b) {
        None => Ok(()),
        Some(k) => {
            let mut got = String::from_str("invalid UTF-8 at byte ");
            proof {
                reveal_strlit("invalid UTF-8 at byte ");
            }
            let n = b.len();
            assert(k < n);
            append_digits(&mut got, (k as u64) + 1);
            let e = crate::error::bad_argument(position, function, expected, got);
            assert(first_bad_byte(b@, k as int));
            Err(e)
        },
    }
}

// ---------------------------------------------------------------------------
// Offsets
// ---------------------------------------------------------------------------

/// The 0-based offset of the optional 1-based `init` (default 1), clamped
/// to `[0, len]`; negative values count from the end.
pub open spec fn init_offset_spec(init: Option<i64>, len: int) -> int {
    let i = match init {
        Some(i) => i as int,
        None => 1,
    };
    if i > 0 {
        if i - 1 < len {
            i - 1
        } else {
            len
        }
    } else if i == 0 || i < -len {
        0
    } else {
        len + i
    }
}

/// Offset of a 1-based `init` argument (see `init_offset_spec`).
pub fn init_to_offset(init: Option<i64>, len: usize) -> (r: usize)
    ensures
        r as int == init_offset_spec(init, len as int),
{
    let i = match init {
        Some(i) => i,
        None => 1,
    };
    if i > 0 {
        if ((i - 1) as u64) < (len as u64) {
            (i - 1) as usize
        } else {
            len
        }
    } else if i == 0 {
        0
    } else {
        let k: u64 = (-(i + 1)) as u64 + 1;
        if (len as u64) < k {
            0
        } else {
            len - (k as usize)
        }
    }
}

// ---------------------------------------------------------------------------
// Captures
// ---------------------------------------------------------------------------

/// The captures of one match: the haystack, the span of each group (group
/// 0 is the whole match; `None` for a group that did not take part), and
/// the name of each group (`None` for unnamed groups).
#[derive(Debug)]
pub struct CapturesData {
    pub haystack: Vec<u8>,
    pub groups: Vec<Option<(usize, usize)>>,
    pub names: Vec<Option<Vec<u8>>>,
}

/// The captures of a match as values: the haystack, the group spans and
/// the group names.
pub struct CapturesView {
    pub haystack: Seq<u8>,
    pub groups: Seq<Option<(usize, usize)>>,
    pub names: Seq<Option<Seq<u8>>>,
}

/// An optional name as bytes.
pub open spec fn name_view(n: Option<Vec<u8>>) -> Option<Seq<u8>> {
    match n {
        Some(v) => Some(v@),
        None => None,
    }
}

/// A list of optional names as bytes.
pub open spec fn names_view(names: Seq<Option<Vec<u8>>>) -> Seq<Option<Seq<u8>>> {
    names.map_values(|n: Option<Vec<u8>>| name_view(n))
}

impl View for CapturesData {
    type V = CapturesView;

    open spec fn view(&self) -> CapturesView {
        CapturesView {
            haystack: self.haystack@,
            groups: self.groups@,
            names: names_view(self.names@),
        }
    }
}

impl CapturesView {
    /// Every group span lies within the haystack (which, like any
    /// allocation, is shorter than `isize::MAX`).
    pub open spec fn wf(self) -> bool {
        &&& self.haystack.len() < isize::MAX
        &&& forall|i: int|
            0 <= i < self.groups.len() ==> (#[trigger] self.groups[i] matches Some((s, e)) ==> s
                <= e <= self.haystack.len())
    }

    /// The text of group `i`, if it took part in the match.
    pub open spec fn group_text(self, i: int) -> Option<Seq<u8>> {
        if 0 <= i < self.groups.len() {
            match self.groups[i] {
                Some((s, e)) => Some(self.haystack.subrange(s as int, e as int)),
                None => None,
            }
        } else {
            None
        }
    }

    /// The index of the first group named `name`.
    pub open spec fn name_index(self, name: Seq<u8>) -> Option<int> {
        first_named(self.names, name, 0)
    }

    /// The text that a group reference (`N` or a name) expands to.
    pub open spec fn lookup_text(self, name: Seq<u8>) -> Option<Seq<u8>> {
        if is_index_name(name) {
            self.group_text(digits_value(name))
        } else {
            match self.name_index(name) {
                Some(k) => self.group_text(k),
                None => None,
            }
        }
    }
}

impl CapturesData {
    /// Every group span lies within the haystack.
    pub open spec fn wf(&self) -> bool {
        self@.wf()
    }

    /// The span of group `i`.
    pub fn get_span(&self, i: usize) -> (r: Option<(usize, usize)>)
        ensures
            r == (if i < self.groups@.len() {
                self.groups@[i as int]
            } else {
                None
            }),
    {
        if i < self.groups.len() {
            self.groups[i]
        } else {
            None
        }
    }

    /// The text of group `i`.
    pub fn get_bytes(&self, i: usize) -> (r: Option<Vec<u8>>)
        requires
            self.wf(),
        ensures
            match r {
                Some(v) => self@.group_text(i as int) == Some(v@),
                None => self@.group_text(i as int) is None,
            },
    {
        match self.get_span(i) {
            Some((s, e)) => {
                assert(self.groups@[i as int] matches Some((s, e)));
                Some(copy_range(self.haystack.as_slice(), s, e))
            },
            None => None,
        }
    }

    /// The index of the first group named `name`.
    pub fn index_of_name(&self, name: &[u8]) -> (r: Option<usize>)
        ensures
            match r {
                Some(k) => self@.name_index(name@) == Some(k as int),
                None => self@.name_index(name@) is None,
            },
    {
        let n = self.names.len();
        let mut k: usize = 0;
        while k < n
            invariant
                k <= n,
                n == self.names@.len(),
                first_named(self@.names, name@, k as int) == first_named(self@.names, name@, 0),
            decreases n - k,
        {
            assert(self@.names[k as int] == name_view(self.names@[k as int]));
            match &self.names[k] {
                Some(nm) => {
                    if crate::byte_str::range_eq(nm.as_slice(), 0, name) && nm.len() == name.len() {
                        assert(nm@.subrange(0, name@.len() as int) =~= nm@);
                        return Some(k);
                    }
                    proof {
                        if nm@ == name@ {
                            assert(nm@.subrange(0, name@.len() as int) =~= nm@);
                        }
                    }
                },
                None => {},
            }
            k = k + 1;
        }
        None
    }

    /// Expand a replacement template: `$$` is `$`, `$N` / `${N}` group `N`,
    /// `$name` / `${name}` the named group; unknown groups expand to
    /// nothing, and a `$` that starts no reference is kept.
    pub fn expand(&self, template: &[u8]) -> (r: Vec<u8>)
        requires
            self.wf(),
        ensures
            r@ == expand_spec(self@, template@, 0),
    {
        let n = template.len();
        let mut out: Vec<u8> = Vec::new();
        let mut i: usize = 0;
        while i < n
            invariant
                n == template@.len(),
                i <= n,
                self.wf(),
                out@ + expand_spec(self@, template@, i as int) == expand_spec(self@, template@, 0),
            decreases n - i,
        {
            let ghost before = out@;
            let ghost t = template@;
            let b = template[i];
            if b != 36 {
                out.push(b);
                proof {
                    assert(expand_spec(self@, t, i as int) == seq![b] + expand_spec(self@, t, i + 1));
                    assert(out@ + expand_spec(self@, t, i + 1) =~= before + expand_spec(self@, t, i as int));
                }
                i = i + 1;
            } else if i + 1 >= n {
                out.push(36);
                proof {
                    assert(expand_spec(self@, t, i as int) == seq![36u8] + expand_spec(self@, t, i + 1));
                    assert(out@ + expand_spec(self@, t, i + 1) =~= before + expand_spec(self@, t, i as int));
                }
                i = i + 1;
            } else if template[i + 1] == 36 {
                out.push(36);
                proof {
                    assert(expand_spec(self@, t, i as int) == seq![36u8] + expand_spec(self@, t, i + 2));
                    assert(out@ + expand_spec(self@, t, i + 2) =~= before + expand_spec(self@, t, i as int));
                }
                i = i + 2;
            } else if template[i + 1] == 123 {
                match find_close(template, i + 2) {
                    Some(c) => {
                        let name = copy_range(template, i + 2, c);
                        let looked = self.lookup(name.as_slice());
                        match looked {
                            Some(v) => append_all(&mut out, v.as_slice()),
                            None => {},
                        }
                        proof {
                            let txt = text_or_empty(self@.lookup_text(t.subrange(i + 2, c as int)));
                            assert(out@ == before + txt);
                            assert(expand_spec(self@, t, i as int) == txt + expand_spec(self@, t, c + 1));
                            assert(out@ + expand_spec(self@, t, c + 1) =~= before + expand_spec(self@, t, i as int));
                        }
                        i = c + 1;
                    },
                    None => {
                        out.push(36);
                        proof {
                            assert(expand_spec(self@, t, i as int) == seq![36u8] + expand_spec(self@, t, i + 1));
                            assert(out@ + expand_spec(self@, t, i + 1) =~= before + expand_spec(self@, t, i as int));
                        }
                        i = i + 1;
                    },
                }
            } else {
                let end = name_end(template, i + 1);
                if end == i + 1 {
                    out.push(36);
                    proof {
                        assert(expand_spec(self@, t, i as int) == seq![36u8] + expand_spec(self@, t, i + 1));
                        assert(out@ + expand_spec(self@, t, i + 1) =~= before + expand_spec(self@, t, i as int));
                    }
                    i = i + 1;
                } else {
                    let name = copy_range(template, i + 1, end);
                    let looked = self.lookup(name.as_slice());
                    match looked {
                        Some(v) => append_all(&mut out, v.as_slice()),
                        None => {},
                    }
                    proof {
                        let txt = text_or_empty(self@.lookup_text(t.subrange(i + 1, end as int)));
                        assert(out@ == before + txt);
                        assert(expand_spec(self@, t, i as int) == txt + expand_spec(self@, t, end as int));
                        assert(out@ + expand_spec(self@, t, end as int) =~= before + expand_spec(self@, t, i as int));
                    }
                    i = end;
                }
            }
        }
        assert(out@ + Seq::<u8>::empty() =~= out@);
        out
    }

    /// The text that a group reference expands to.
    pub fn lookup(&self, name: &[u8]) -> (r: Option<Vec<u8>>)
        requires
            self.wf(),
        ensures
            match r {
                Some(v) => self@.lookup_text(name@) == Some(v@),
                None => self@.lookup_text(name@) is None,
            },
    {
        match parse_index(name) {
            Some(idx) => {
                assert(idx as int == digits_value(name@));
                self.get_bytes(idx)
            },
            None => match self.index_of_name(name) {
                Some(k) => self.get_bytes(k),
                None => None,
            },
        }
    }
}

/// The index of the first entry at or after `k` named `name`.
pub open spec fn first_named(names: Seq<Option<Seq<u8>>>, name: Seq<u8>, k: int) -> Option<int>
    decreases names.len() - k,
{
    if k < 0 || k >= names.len() {
        None
    } else if names[k] == Some(name) {
        Some(k)
    } else {
        first_named(names, name, k + 1)
    }
}

/// An ASCII decimal digit.
pub open spec fn is_digit_byte(b: u8) -> bool {
    48 <= b <= 57
}

/// The value of a string of decimal digits.
pub open spec fn digits_value(s: Seq<u8>) -> int
    decreases s.len(),
{
    if s.len() == 0 {
        0
    } else {
        digits_value(s.drop_last()) * 10 + (s.last() - 48)
    }
}

/// A reference by number: non-empty, all digits, and within `usize`.
pub open spec fn is_index_name(name: Seq<u8>) -> bool {
    &&& name.len() > 0
    &&& forall|k: int| 0 <= k < name.len() ==> is_digit_byte(#[trigger] name[k])
    &&& digits_value(name) <= usize::MAX
}

/// ASCII letters, digits and `_`.
pub open spec fn is_name_byte(b: u8) -> bool {
    (48 <= b <= 57) || (65 <= b <= 90) || (97 <= b <= 122) || b == 95
}

/// The end of the run of name bytes from `i`.
pub open spec fn name_run(t: Seq<u8>, i: int) -> int
    decreases t.len() - i,
{
    if 0 <= i < t.len() && is_name_byte(t[i]) {
        name_run(t, i + 1)
    } else {
        i
    }
}

/// The index of the first `}` at or after `i`.
pub open spec fn close_brace(t: Seq<u8>, i: int) -> Option<int>
    decreases t.len() - i,
{
    if i < 0 || i >= t.len() {
        None
    } else if t[i] == 125 {
        Some(i)
    } else {
        close_brace(t, i + 1)
    }
}

/// The text of an optional lookup (nothing when absent).
pub open spec fn text_or_empty(v: Option<Seq<u8>>) -> Seq<u8> {
    match v {
        Some(t) => t,
        None => Seq::empty(),
    }
}

/// The expansion of the template `t` from index `i` on.
pub open spec fn expand_spec(d: CapturesView, t: Seq<u8>, i: int) -> Seq<u8>
    decreases t.len() - i,
{
    if i < 0 || i >= t.len() {
        Seq::empty()
    } else if t[i] != 36 {
        seq![t[i]] + expand_spec(d, t, i + 1)
    } else if i + 1 >= t.len() {
        seq![36u8] + expand_spec(d, t, i + 1)
    } else if t[i + 1] == 36 {
        seq![36u8] + expand_spec(d, t, i + 2)
    } else if t[i + 1] == 123 {
        match close_brace(t, i + 2) {
            Some(c) => if i < c < t.len() {
                text_or_empty(d.lookup_text(t.subrange(i + 2, c))) + expand_spec(d, t, c + 1)
            } else {
                Seq::empty()
            },
            None => seq![36u8] + expand_spec(d, t, i + 1),
        }
    } else {
        let end = name_run(t, i + 1);
        if end <= i + 1 || end > t.len() {
            seq![36u8] + expand_spec(d, t, i + 1)
        } else {
            text_or_empty(d.lookup_text(t.subrange(i + 1, end))) + expand_spec(d, t, end)
        }
    }
}

proof fn lemma_close_brace(t: Seq<u8>, i: int)
    requires
        0 <= i,
    ensures
        close_brace(t, i) matches Some(c) ==> i <= c < t.len(),
    decreases t.len() - i,
{
    if i < t.len() && t[i] != 125 {
        lemma_close_brace(t, i + 1);
    }
}

proof fn lemma_name_run(t: Seq<u8>, i: int)
    requires
        0 <= i <= t.len(),
    ensures
        i <= name_run(t, i) <= t.len(),
    decreases t.len() - i,
{
    if i < t.len() && is_name_byte(t[i]) {
        lemma_name_run(t, i + 1);
    }
}

/// The index of the first `}` in `t` at or after `i`.
fn find_close(t: &[u8], i: usize) -> (r: Option<usize>)
    requires
        i <= t@.len(),
    ensures
        match r {
            Some(c) => close_brace(t@, i as int) == Some(c as int) && i <= c < t@.len(),
            None => close_brace(t@, i as int) is None,
        },
{
    proof {
        lemma_close_brace(t@, i as int);
    }
    let n = t.len();
    let mut k = i;
    while k < n
        invariant
            i <= k <= n,
            n == t@.len(),
            close_brace(t@, k as int) == close_brace(t@, i as int),
        decreases n - k,
    {
        if t[k] == 125 {
            return Some(k);
        }
        k = k + 1;
    }
    None
}

/// ASCII letters, digits and `_`.
fn is_name_char(b: u8) -> (r: bool)
    ensures
        r == is_name_byte(b),
{
    (48 <= b && b <= 57) || (65 <= b && b <= 90) || (97 <= b && b <= 122) || b == 95
}

/// The end of the run of name bytes of `t` from `i`.
fn name_end(t: &[u8], i: usize) -> (r: usize)
    requires
        i <= t@.len(),
    ensures
        r == name_run(t@, i as int),
        i <= r <= t@.len(),
{
    proof {
        lemma_name_run(t@, i as int);
    }
    let n = t.len();
    let mut k = i;
    while k < n && is_name_char(t[k])
        invariant
            i <= k <= n,
            n == t@.len(),
            name_run(t@, k as int) == name_run(t@, i as int),
        decreases n - k,
    {
        k = k + 1;
    }
    k
}

proof fn lemma_digits_prefix_mono(s: Seq<u8>, j: int, k: int)
    requires
        0 <= j <= k <= s.len(),
        forall|m: int| 0 <= m < s.len() ==> is_digit_byte(#[trigger] s[m]),
    ensures
        0 <= digits_value(s.subrange(0, j)) <= digits_value(s.subrange(0, k)),
    decreases k,
{
    if j < k {
        lemma_digits_prefix_mono(s, j, k - 1);
        let p = s.subrange(0, k);
        assert(p.drop_last() =~= s.subrange(0, k - 1));
        assert(is_digit_byte(s[k - 1]));
    } else if k > 0 {
        lemma_digits_prefix_mono(s, 0, k - 1);
        assert(s.subrange(0, k).drop_last() =~= s.subrange(0, k - 1));
        assert(is_digit_byte(s[k - 1]));
    }
}

/// The group number a reference names, if it is a number within `usize`.
pub(crate) fn parse_index(name: &[u8]) -> (r: Option<usize>)
    ensures
        is_index_name(name@) ==> (r matches Some(v) && v as int == digits_value(name@)),
        !is_index_name(name@) ==> r is None,
{
    let n = name.len();
    if n == 0 {
        return None;
    }
    let mut k: usize = 0;
    while k < n
        invariant
            k <= n,
            n == name@.len(),
            forall|m: int| 0 <= m < k ==> is_digit_byte(#[trigger] name@[m]),
        decreases n - k,
    {
        if !(48 <= name[k] && name[k] <= 57) {
            return None;
        }
        k = k + 1;
    }
    let mut acc: usize = 0;
    let mut k: usize = 0;
    while k < n
        invariant
            k <= n,
            n == name@.len(),
            forall|m: int| 0 <= m < n ==> is_digit_byte(#[trigger] name@[m]),
            acc as int == digits_value(name@.subrange(0, k as int)),
        decreases n - k,
    {
        proof {
            assert(name@.subrange(0, k + 1).drop_last() =~= name@.subrange(0, k as int));
        }
        let d = (name[k] - 48) as usize;
        match acc.checked_mul(10) {
            Some(t) => match t.checked_add(d) {
                Some(v) => {
                    acc = v;
                },
                None => {
                    proof {
                        lemma_digits_prefix_mono(name@, k + 1, n as int);
                        assert(name@.subrange(0, n as int) =~= name@);
                    }
                    return None;
                },
            },
            None => {
                proof {
                    lemma_digits_prefix_mono(name@, k + 1, n as int);
                    assert(name@.subrange(0, n as int) =~= name@);
                    assert(digits_value(name@.subrange(0, k + 1)) >= acc * 10);
                }
                return None;
            },
        }
        k = k + 1;
    }
    assert(name@.subrange(0, n as int) =~= name@);
    proof {
        lemma_digits_prefix_mono(name@, n as int, n as int);
    }
    Some(acc)
}

/// A template without `$` expands to itself.
pub proof fn law_expand_plain_template(d: CapturesView, t: Seq<u8>, i: int)
    requires
        0 <= i <= t.len(),
        forall|k: int| 0 <= k < t.len() ==> #[trigger] t[k] != 36,
    ensures
        expand_spec(d, t, i) == t.subrange(i, t.len() as int),
    decreases t.len() - i,
{
    if i < t.len() {
        law_expand_plain_template(d, t, i + 1);
        assert(t.subrange(i, t.len() as int) =~= seq![t[i]] + t.subrange(i + 1, t.len() as int));
    } else {
        assert(t.subrange(i, t.len() as int) =~= Seq::<u8>::empty());
    }
}

/// `$$` expands to a single `$` and `$0` to the whole match.
pub proof fn law_expand_dollar_and_whole(d: CapturesView)
    ensures
        expand_spec(d, seq![36u8, 36u8], 0) == seq![36u8],
        d.groups.len() > 0 && d.groups[0] is Some ==> expand_spec(d, seq![36u8, 48u8], 0)
            == text_or_empty(d.group_text(0)),
{
    let t = seq![36u8, 36u8];
    assert(expand_spec(d, t, 2) == Seq::<u8>::empty());
    assert(expand_spec(d, t, 0) =~= seq![36u8]);
    let z = seq![36u8, 48u8];
    assert(name_run(z, 2) == 2);
    assert(name_run(z, 1) == 2);
    assert(expand_spec(d, z, 2) == Seq::<u8>::empty());
    let name = z.subrange(1, 2);
    assert(name =~= seq![48u8]);
    assert(seq![48u8].drop_last() =~= Seq::<u8>::empty());
    assert(seq![48u8].last() == 48u8);
    assert(digits_value(Seq::<u8>::empty()) == 0);
    assert(digits_value(seq![48u8]) == digits_value(seq![48u8].drop_last()) * 10 + (48u8 - 48));
    assert(digits_value(seq![48u8]) == 0);
    assert(is_index_name(name));
    assert(expand_spec(d, z, 0) =~= text_or_empty(d.group_text(0)));
}

/// Captures of a match of a UTF-8 (backtracking) regular expression, as handed to Lua.
pub struct LuaCaptures {
    data: CapturesData,
}

impl LuaCaptures {
    #[verifier::type_invariant]
    spec fn inv(self) -> bool {
        self.data.wf()
    }

    /// The captures.
    pub closed spec fn captures(&self) -> &CapturesData {
        &self.data
    }

    /// Wrap the captures of a match.
    pub fn new(data: CapturesData) -> (r: LuaCaptures)
        requires
            data.wf(),
        ensures
            *r.captures() == data,
    {
        LuaCaptures { data }
    }

    /// The text of group `i` (0 is the whole match); `None` for a negative
    /// or unknown index or a group that did not take part.
    pub fn get(&self, i: i64) -> (r: Option<Vec<u8>>)
        ensures
            match r {
                Some(v) => i >= 0 && self.captures()@.group_text(i as int) == Some(v@),
                None => i < 0 || self.captures()@.group_text(i as int) is None,
            },
    {
        proof {
            use_type_invariant(self);
        }
        if i < 0 || (i as u64) >= (self.data.groups.len() as u64) {
            return None;
        }
        self.data.get_bytes(i as usize)
    }

    /// The 1-based position of the first byte of group `i`.
    pub fn start(&self, i: i64) -> (r: Option<i64>)
        ensures
            match r {
                Some(p) => {
                    &&& i >= 0
                    &&& i < self.captures()@.groups.len()
                    &&& self.captures()@.groups[i as int] matches Some((s, _)) && p == s + 1
                },
                None => i < 0 || i >= self.captures()@.groups.len()
                    || self.captures()@.groups[i as int] is None,
            },
    {
        proof {
            use_type_invariant(self);
        }
        if i < 0 || (i as u64) >= (self.data.groups.len() as u64) {
            return None;
        }
        match self.data.get_span(i as usize) {
            Some((s, _)) => {
                assert(self.data.groups@[i as int] matches Some((s, e)) && s <= e);
                Some((s + 1) as i64)
            },
            None => None,
        }
    }

    /// The 1-based position of the last byte of group `i` (inclusive).
    pub fn end_(&self, i: i64) -> (r: Option<i64>)
        ensures
            match r {
                Some(p) => {
                    &&& i >= 0
                    &&& i < self.captures()@.groups.len()
                    &&& self.captures()@.groups[i as int] matches Some((_, e)) && p == e
                },
                None => i < 0 || i >= self.captures()@.groups.len()
                    || self.captures()@.groups[i as int] is None,
            },
    {
        proof {
            use_type_invariant(self);
        }
        if i < 0 || (i as u64) >= (self.data.groups.len() as u64) {
            return None;
        }
        match self.data.get_span(i as usize) {
            Some((_, e)) => {
                assert(self.data.groups@[i as int] matches Some((s, e)) && e <= self.data.haystack@.len());
                Some(e as i64)
            },
            None => None,
        }
    }

    /// The name of group `i`, if it has one.
    pub fn name(&self, i: i64) -> (r: Option<Vec<u8>>)
        ensures
            match r {
                Some(v) => {
                    &&& i >= 0
                    &&& i < self.captures()@.names.len()
                    &&& self.captures()@.names[i as int] == Some(v@)
                },
                None => i < 0 || i >= self.captures()@.names.len()
                    || self.captures()@.names[i as int] is None,
            },
    {
        if i < 0 || (i as u64) >= (self.data.names.len() as u64) {
            return None;
        }
        match &self.data.names[i as usize] {
            Some(n) => {
                let k = n.len();
                let v = copy_range(n.as_slice(), 0, k);
                assert(n@.subrange(0, k as int) =~= n@);
                Some(v)
            },
            None => None,
        }
    }

    /// The text of the first group named `name`.
    pub fn by_name(&self, name: &[u8]) -> (r: Option<Vec<u8>>)
        ensures
            match r {
                Some(v) => self.captures()@.name_index(name@) matches Some(k)
                    && self.captures()@.group_text(k) == Some(v@),
                None => match self.captures()@.name_index(name@) {
                    Some(k) => self.captures()@.group_text(k) is None,
                    None => true,
                },
            },
    {
        proof {
            use_type_invariant(self);
        }
        match self.data.index_of_name(name) {
            Some(k) => self.data.get_bytes(k),
            None => None,
        }
    }

    /// The number of groups, the whole match included.
    pub fn len(&self) -> (r: usize)
        ensures
            r == self.captures()@.groups.len(),
    {
        self.data.groups.len()
    }

    /// Expand a replacement template against these captures.
    pub fn expand(&self, template: &[u8]) -> (r: Vec<u8>)
        ensures
            r@ == expand_spec(self.captures()@, template@, 0),
    {
        proof {
            use_type_invariant(self);
        }
        self.data.expand(template)
    }
}

/// Captures of a match of a byte-oriented regular expression, as handed to Lua.
pub struct LuaBytesCaptures {
    data: CapturesData,
}

impl LuaBytesCaptures {
    #[verifier::type_invariant]
    spec fn inv(self) -> bool {
        self.data.wf()
    }

    /// The captures.
    pub closed spec fn captures(&self) -> &CapturesData {
        &self.data
    }

    /// Wrap the captures of a match.
    pub fn new(data: CapturesData) -> (r: LuaBytesCaptures)
        requires
            data.wf(),
        ensures
            *r.captures() == data,
    {
        LuaBytesCaptures { data }
    }

    /// The text of group `i` (0 is the whole match); `None` for a negative
    /// or unknown index or a group that did not take part.
    pub fn get(&self, i: i64) -> (r: Option<Vec<u8>>)
        ensures
            match r {
                Some(v) => i >= 0 && self.captures()@.group_text(i as int) == Some(v@),
                None => i < 0 || self.captures()@.group_text(i as int) is None,
            },
    {
        proof {
            use_type_invariant(self);
        }
        if i < 0 || (i as u64) >= (self.data.groups.len() as u64) {
            return None;
        }
        self.data.get_bytes(i as usize)
    }

    /// The 1-based position of the first byte of group `i`.
    pub fn start(&self, i: i64) -> (r: Option<i64>)
        ensures
            match r {
                Some(p) => {
                    &&& i >= 0
                    &&& i < self.captures()@.groups.len()
                    &&& self.captures()@.groups[i as int] matches Some((s, _)) && p == s + 1
                },
                None => i < 0 || i >= self.captures()@.groups.len()
                    || self.captures()@.groups[i as int] is None,
            },
    {
        proof {
            use_type_invariant(self);
        }
        if i < 0 || (i as u64) >= (self.data.groups.len() as u64) {
            return None;
        }
        match self.data.get_span(i as usize) {
            Some((s, _)) => {
                assert(self.data.groups@[i as int] matches Some((s, e)) && s <= e);
                Some((s + 1) as i64)
            },
            None => None,
        }
    }

    /// The 1-based position of the last byte of group `i` (inclusive).
    pub fn end_(&self, i: i64) -> (r: Option<i64>)
        ensures
            match r {
                Some(p) => {
                    &&& i >= 0
                    &&& i < self.captures()@.groups.len()
                    &&& self.captures()@.groups[i as int] matches Some((_, e)) && p == e
                },
                None => i < 0 || i >= self.captures()@.groups.len()
                    || self.captures()@.groups[i as int] is None,
            },
    {
        proof {
            use_type_invariant(self);
        }
        if i < 0 || (i as u64) >= (self.data.groups.len() as u64) {
            return None;
        }
        match self.data.get_span(i as usize) {
            Some((_, e)) => {
                assert(self.data.groups@[i as int] matches Some((s, e)) && e <= self.data.haystack@.len());
                Some(e as i64)
            },
            None => None,
        }
    }

    /// The name of group `i`, if it has one.
    pub fn name(&self, i: i64) -> (r: Option<Vec<u8>>)
        ensures
            match r {
                Some(v) => {
                    &&& i >= 0
                    &&& i < self.captures()@.names.len()
                    &&& self.captures()@.names[i as int] == Some(v@)
                },
                None => i < 0 || i >= self.captures()@.names.len()
                    || self.captures()@.names[i as int] is None,
            },
    {
        if i < 0 || (i as u64) >= (self.data.names.len() as u64) {
            return None;
        }
        match &self.data.names[i as usize] {
            Some(n) => {
                let k = n.len();
                let v = copy_range(n.as_slice(), 0, k);
                assert(n@.subrange(0, k as int) =~= n@);
                Some(v)
            },
            None => None,
        }
    }

    /// The text of the first group named `name`.
    pub fn by_name(&self, name: &[u8]) -> (r: Option<Vec<u8>>)
        ensures
            match r {
                Some(v) => self.captures()@.name_index(name@) matches Some(k)
                    && self.captures()@.group_text(k) == Some(v@),
                None => match self.captures()@.name_index(name@) {
                    Some(k) => self.captures()@.group_text(k) is None,
                    None => true,
                },
            },
    {
        proof {
            use_type_invariant(self);
        }
        match self.data.index_of_name(name) {
            Some(k) => self.data.get_bytes(k),
            None => None,
        }
    }

    /// The number of groups, the whole match included.
    pub fn len(&self) -> (r: usize)
        ensures
            r == self.captures()@.groups.len(),
    {
        self.data.groups.len()
    }

    /// Expand a replacement template against these captures.
    pub fn expand(&self, template: &[u8]) -> (r: Vec<u8>)
        ensures
            r@ == expand_spec(self.captures()@, template@, 0),
    {
        proof {
            use_type_invariant(self);
        }
        self.data.expand(template)
    }
}

} // verus!
