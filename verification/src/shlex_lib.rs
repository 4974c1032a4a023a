//! The `shlex` library: POSIX-shell-style splitting, quoting and joining
//! of byte strings, done by the `shlex` crate, and its registration.
use vstd::prelude::*;
use crate::env::{GlobalEnv, GlobalView, Module, install_module, installed};
use crate::error::{LibError, bad_argument, is_bad_argument_got};
use crate::decimal::{append_decimal, int_text};

verus! {

/// The words of a shell-like string, or `None` when it ends inside a
/// quote or after a backslash (the result of `shlex::bytes::split`).
pub uninterp spec fn shlex_words(s: Seq<u8>) -> Option<Seq<Seq<u8>>>;

/// The shell-quoted form of a word without nul bytes (the result of
/// `shlex::bytes::try_quote`).
pub uninterp spec fn shlex_quoted(s: Seq<u8>) -> Seq<u8>;

/// The quoted form of the empty word: two single quotes.
pub open spec fn empty_word_quoted() -> Seq<u8> {
    seq![39u8, 39u8]
}

/// The byte string holds a nul byte.
pub open spec fn has_nul(s: Seq<u8>) -> bool {
    exists|i: int| 0 <= i < s.len() && s[i] == 0
}

/// Some non-empty word holds a nul byte.
pub open spec fn some_word_has_nul(ws: Seq<Vec<u8>>) -> bool {
    exists|k: int| 0 <= k < ws.len() && #[trigger] ws[k]@.len() > 0 && has_nul(ws[k]@)
}

/// The words joined by single spaces.
pub open spec fn join_spaces(ws: Seq<Seq<u8>>) -> Seq<u8>
    decreases ws.len(),
{
    if ws.len() == 0 {
        Seq::empty()
    } else if ws.len() == 1 {
        ws[0]
    } else {
        join_spaces(ws.drop_last()) + seq![32u8] + ws.last()
    }
}

/// `shlex::bytes::split`: the words of `s`, or `None` for an unbalanced
/// quote or a trailing backslash.  Claimed: the result is a function of
/// the input.
#[verifier::external_body]
fn shlex_split(s: &[u8]) -> (r: Option<Vec<Vec<u8>>>)
    ensures
        match r {
            Some(ws) => shlex_words(s@) matches Some(v) && v.len() == ws@.len() && forall|k: int|
                0 <= k < v.len() ==> #[trigger] ws@[k]@ == v[k],
            None => shlex_words(s@) is None,
        },
{
    shlex::bytes::split(s)
}

/// `shlex::bytes::try_quote`: the quoted word, or `None` when it holds a
/// nul byte.  Claimed: it fails exactly on a nul byte, the empty word
/// quotes to two single quotes, and the result is a function of the input.
#[verifier::external_body]
fn shlex_try_quote(s: &[u8]) -> (r: Option<Vec<u8>>)
    ensures
        r is None <==> (s@.len() > 0 && has_nul(s@)),
        r matches Some(q) ==> q@ == shlex_quoted(s@) && (s@.len() == 0 ==> q@
            == empty_word_quoted()),
{
    match shlex::bytes::try_quote(s) {
        Ok(q) => Some(q.into_owned()),
        Err(_) => None,
    }
}

/// `shlex::bytes::try_join`: the words quoted and joined by spaces, or
/// `None` when a word holds a nul byte.  Claimed as the source shows:
/// each word is quoted as by `try_quote` and the results are joined by
/// single spaces.
#[verifier::external_body]
fn shlex_try_join(argv: &[Vec<u8>]) -> (r: Option<Vec<u8>>)
    ensures
        r is None <==> some_word_has_nul(argv@),
        r matches Some(j) ==> j@ == join_spaces(
            argv@.map_values(|a: Vec<u8>| shlex_quoted(a@)),
        ),
{
    match shlex::bytes::try_join(argv.iter().map(|a| a.as_slice())) {
        Ok(j) => Some(j),
        Err(_) => None,
    }
}

/// The message when a string ends inside a quote or after a backslash.
pub open spec fn unbalanced_message() -> Seq<char> {
    "input ends in an unbalanced quote or trailing backslash"@
}

/// `shlex.split(s)`: the words of `s`, or the message for unbalanced
/// input.
pub fn split(s: &[u8]) -> (r: Result<Vec<Vec<u8>>, String>)
    ensures
        match shlex_words(s@) {
            Some(v) => r matches Ok(ws) && v.len() == ws@.len() && forall|k: int|
                0 <= k < v.len() ==> #[trigger] ws@[k]@ == v[k],
            None => r matches Err(m) && m@ == unbalanced_message(),
        },
{
    match shlex_split(s) {
        Some(ws) => Ok(ws),
        None => Err(String::from_str("input ends in an unbalanced quote or trailing backslash")),
    }
}

/// `shlex.quote(s)`: the quoted word; a word with a nul byte is a bad
/// argument.
pub fn quote(s: &[u8]) -> (r: Result<Vec<u8>, LibError>)
    ensures
        s@.len() > 0 && has_nul(s@) ==> (r matches Err(e) && is_bad_argument_got(
            e,
            1,
            "shlex.quote"@,
            "a string without a nul byte"@,
            "a nul byte"@,
        )),
        !(s@.len() > 0 && has_nul(s@)) ==> (r matches Ok(q) && q@ == shlex_quoted(s@)),
{
    match shlex_try_quote(s) {
        Some(q) => Ok(q),
        None => Err(
            bad_argument(
                1,
                "shlex.quote",
                "a string without a nul byte",
                String::from_str("a nul byte"),
            ),
        ),
    }
}

/// The index of the first element holding a nul byte.
fn first_with_nul(argv: &[Vec<u8>]) -> (r: Option<usize>)
    ensures
        match r {
            Some(k) => k < argv@.len() && has_nul(argv@[k as int]@) && forall|j: int|
                0 <= j < k ==> !has_nul(#[trigger] argv@[j]@),
            None => forall|j: int| 0 <= j < argv@.len() ==> !has_nul(#[trigger] argv@[j]@),
        },
{
    let mut k: usize = 0;
    while k < argv.len()
        invariant
            k <= argv@.len(),
            forall|j: int| 0 <= j < k ==> !has_nul(#[trigger] argv@[j]@),
        decreases argv@.len() - k,
    {
        let a = argv[k].as_slice();
        let mut i: usize = 0;
        while i < a.len()
            invariant
                k < argv@.len(),
                i <= a@.len(),
                a@ == argv@[k as int]@,
                forall|m: int| 0 <= m < i ==> a@[m] != 0,
                forall|j: int| 0 <= j < k ==> !has_nul(#[trigger] argv@[j]@),
            decreases a@.len() - i,
        {
            if a[i] == 0 {
                assert(a@[i as int] == 0);
                return Some(k);
            }
            i = i + 1;
        }
        k = k + 1;
    }
    None
}

/// The description of a rejected `join` argument: the 1-based element
/// holding a nul byte.
pub open spec fn nul_element_text(k: int) -> Seq<char> {
    "a nul byte in element "@ + int_text(k + 1)
}

/// `shlex.join(argv)`: the words quoted and joined by spaces; an element
/// with a nul byte is a bad argument naming the first such element.
pub fn join(argv: &[Vec<u8>]) -> (r: Result<Vec<u8>, LibError>)
    requires
        argv@.len() < i64::MAX,
    ensures
        match r {
            Ok(j) => j@ == join_spaces(argv@.map_values(|a: Vec<u8>| shlex_quoted(a@))),
            Err(e) => exists|k: int|
                0 <= k < argv@.len() && has_nul(#[trigger] argv@[k]@) && (forall|j: int|
                    0 <= j < k ==> !has_nul(#[trigger] argv@[j]@)) && is_bad_argument_got(
                    e,
                    1,
                    "shlex.join"@,
                    "a string without a nul byte"@,
                    nul_element_text(k),
                ),
        },
        (forall|k: int| 0 <= k < argv@.len() ==> !has_nul(#[trigger] argv@[k]@)) ==> r is Ok,
{
    match shlex_try_join(argv) {
        Some(j) => Ok(j),
        None => {
            match first_with_nul(argv) {
                Some(k) => {
                    let n = argv.len();
                    assert(k < n);
                    proof {
                        reveal_strlit("a nul byte in element ");
                    }
                    let mut got = String::from_str("a nul byte in element ");
                    append_decimal(&mut got, (k + 1) as i64);
                    Err(bad_argument(1, "shlex.join", "a string without a nul byte", got))
                },
                None => {
                    proof {
                        let k = choose|k: int|
                            0 <= k < argv@.len() && #[trigger] argv@[k]@.len() > 0 && has_nul(argv@[k]@);
                        assert(!has_nul(argv@[k]@));
                    }
                    Err(
                        bad_argument(
                            1,
                            "shlex.join",
                            "a string without a nul byte",
                            String::from_str("a nul byte"),
                        ),
                    )
                },
            }
        },
    }
}

/// Joining a single word quotes it: `join({w}) == quote(w)`.
pub proof fn law_join_single_word(w: Vec<u8>)
    ensures
        join_spaces(seq![w].map_values(|a: Vec<u8>| shlex_quoted(a@))) == shlex_quoted(w@),
{
    assert(seq![w].map_values(|a: Vec<u8>| shlex_quoted(a@)) =~= seq![shlex_quoted(w@)]);
}

/// Build the `shlex` library table and register it as the `shlex` global.
pub fn register(env: &mut GlobalEnv) -> (r: Result<(), LibError>)
    ensures
        r is Ok,
        installed(
            *old(env),
            *final(env),
            "shlex"@,
            GlobalView::Table(seq![Module::Shlex]),
            Some("shlex"@),
        ),
{
    install_module(env, "shlex", Module::Shlex);
    Ok(())
}

} // verus!
