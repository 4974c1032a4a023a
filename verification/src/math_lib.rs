//! Registration of the `math` library, and the argument rules of
//! `math.random`; the numeric functions work on floating point and live
//! with the embedding application, as does the random generator.
use vstd::prelude::*;
use crate::env::{GlobalEnv, GlobalView, Module, install_module, installed};
use crate::error::{LibError, is_runtime_at, runtime_error_at};

verus! {

/// Build the `math` library table and register it as the `math` global.
pub fn register(env: &mut GlobalEnv) -> (r: Result<(), LibError>)
    ensures
        r is Ok,
        installed(
            *old(env),
            *final(env),
            "math"@,
            GlobalView::Table(seq![Module::Math]),
            Some("math"@),
        ),
{
    install_module(env, "math", Module::Math);
    Ok(())
}


/// The range `math.random` draws from, for its arguments taken as
/// integers: no argument asks for a float in `[0, 1)` (`None`); `m` alone
/// for an integer in `1..=m`; `m` and `n` for one in `m..=n`.  An empty
/// range, or `n` without `m`, is an error about the argument it names.
pub fn random_range(m: Option<i64>, n: Option<i64>) -> (r: Result<Option<(i64, i64)>, LibError>)
    ensures
        match (m, n) {
            (None, None) => r == Ok::<Option<(i64, i64)>, LibError>(None),
            (Some(a), None) => if a < 1 {
                r matches Err(e) && is_runtime_at(e, "bad argument #1 to 'random' (interval is empty)"@, Some(1usize), Seq::empty())
            } else {
                r == Ok::<Option<(i64, i64)>, LibError>(Some((1, a)))
            },
            (Some(a), Some(b)) => if a > b {
                r matches Err(e) && is_runtime_at(e, "bad argument #2 to 'random' (interval is empty)"@, Some(2usize), Seq::empty())
            } else {
                r == Ok::<Option<(i64, i64)>, LibError>(Some((a, b)))
            },
            (None, Some(_)) => r matches Err(e) && is_runtime_at(
                e,
                "bad argument #1 to 'random' (number expected, got nil)"@,
                Some(1usize),
                Seq::empty(),
            ),
        },
{
    match (m, n) {
        (None, None) => Ok(None),
        (Some(a), None) => if a < 1 {
            Err(runtime_error_at(String::from_str("bad argument #1 to 'random' (interval is empty)"), 1))
        } else {
            Ok(Some((1, a)))
        },
        (Some(a), Some(b)) => if a > b {
            Err(runtime_error_at(String::from_str("bad argument #2 to 'random' (interval is empty)"), 2))
        } else {
            Ok(Some((a, b)))
        },
        (None, Some(_)) => Err(
            runtime_error_at(String::from_str("bad argument #1 to 'random' (number expected, got nil)"), 1),
        ),
    }
}

} // verus!
