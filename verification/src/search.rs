//! Substring and byte search over byte strings, done by the `memchr`
//! crate.
use vstd::prelude::*;

verus! {

/// `needle` occurs in `hay` at byte offset `i`.
pub open spec fn occurs_at(hay: Seq<u8>, needle: Seq<u8>, i: int) -> bool {
    0 <= i && i + needle.len() <= hay.len() && hay.subrange(i, i + needle.len()) == needle
}

/// `r` is the offset of the first occurrence of `needle` in `hay`, or
/// `None` when there is none.
pub open spec fn is_first_occurrence(hay: Seq<u8>, needle: Seq<u8>, r: Option<usize>) -> bool {
    match r {
        Some(i) => occurs_at(hay, needle, i as int) && forall|j: int|
            0 <= j < i ==> !#[trigger] occurs_at(hay, needle, j),
        None => forall|j: int| !#[trigger] occurs_at(hay, needle, j),
    }
}

/// `r` is the offset of the last occurrence of `needle` in `hay`, or
/// `None` when there is none.
pub open spec fn is_last_occurrence(hay: Seq<u8>, needle: Seq<u8>, r: Option<usize>) -> bool {
    match r {
        Some(i) => occurs_at(hay, needle, i as int) && forall|j: int|
            i < j ==> !#[trigger] occurs_at(hay, needle, j),
        None => forall|j: int| !#[trigger] occurs_at(hay, needle, j),
    }
}

/// `memchr::memmem::find`: the offset of the first occurrence of
/// `needle` in `hay` (an empty needle occurs at offset 0).
#[verifier::external_body]
pub(crate) fn memmem_find(hay: &[u8], needle: &[u8]) -> (r: Option<usize>)
    ensures
        is_first_occurrence(hay@, needle@, r),
{
    memchr::memmem::find(hay, needle)
}

/// `memchr::memmem::rfind`: the offset of the last occurrence of
/// `needle` in `hay` (an empty needle occurs at offset `hay.len()`).
#[verifier::external_body]
pub(crate) fn memmem_rfind(hay: &[u8], needle: &[u8]) -> (r: Option<usize>)
    ensures
        is_last_occurrence(hay@, needle@, r),
{
    memchr::memmem::rfind(hay, needle)
}

} // verus!
