//! Errors raised by library functions, in the shapes the interpreter
//! reports them: a bad argument at a 1-based position of a named function,
//! or a runtime error with a message, which may name the argument it is
//! about and carry hints for the reader.
use vstd::prelude::*;

verus! {

/// An error raised by a library function.
#[derive(Debug)]
pub enum LibError {
    /// `bad argument #position to 'function' (msg)`, with hints shown
    /// with it.
    ArgError { position: usize, function: String, msg: String, hints: Vec<String> },
    /// `bad argument #position to 'function' (expected, got)`.
    BadArgument { position: usize, function: String, expected: String, got: String },
    /// A runtime error carrying a message, the 1-based position of the
    /// argument it is about (if any), and hints shown with it.
    Runtime { message: String, arg_position: Option<usize>, hints: Vec<String> },
}

/// `LibError::ArgError` with the given position, function name and message.
pub open spec fn is_arg_error(e: LibError, position: usize, function: Seq<char>, msg: Seq<char>) -> bool {
    e matches LibError::ArgError { position: p, function: f, msg: m, hints: h } && p == position && f@
        == function && m@ == msg && h@.len() == 0
}

/// `LibError::BadArgument` with the given position, function and expectation.
pub open spec fn is_bad_argument(
    e: LibError,
    position: usize,
    function: Seq<char>,
    expected: Seq<char>,
) -> bool {
    e matches LibError::BadArgument { position: p, function: f, expected: x, .. } && p == position
        && f@ == function && x@ == expected
}

/// `LibError::BadArgument` with the given position, function,
/// expectation and description of the value received.
pub open spec fn is_bad_argument_got(
    e: LibError,
    position: usize,
    function: Seq<char>,
    expected: Seq<char>,
    got: Seq<char>,
) -> bool {
    e matches LibError::BadArgument { position: p, function: f, expected: x, got: g } && p
        == position && f@ == function && x@ == expected && g@ == got
}

/// `LibError::Runtime` with the given message, naming no argument and
/// with no hint.
pub open spec fn is_runtime(e: LibError, message: Seq<char>) -> bool {
    is_runtime_at(e, message, None, Seq::empty())
}

/// The texts of the hints.
pub open spec fn hint_views(h: Seq<String>) -> Seq<Seq<char>> {
    h.map_values(|s: String| s@)
}

/// `LibError::Runtime` with the given message, argument position and
/// hints.
pub open spec fn is_runtime_at(e: LibError, message: Seq<char>, position: Option<usize>, hints: Seq<Seq<char>>) -> bool {
    e matches LibError::Runtime { message: m, arg_position: p, hints: h } && m@ == message && p == position
        && hint_views(h@) == hints
}


/// Build an argument error.
pub fn arg_error(position: usize, function: &str, msg: &str) -> (e: LibError)
    ensures
        is_arg_error(e, position, function@, msg@),
{
    LibError::ArgError {
        position,
        function: String::from_str(function),
        msg: String::from_str(msg),
        hints: Vec::new(),
    }
}

/// Build a bad-argument error.
pub fn bad_argument(position: usize, function: &str, expected: &str, got: String) -> (e: LibError)
    ensures
        is_bad_argument(e, position, function@, expected@),
        e matches LibError::BadArgument { got: g, .. } && g@ == got@,
{
    LibError::BadArgument {
        position,
        function: String::from_str(function),
        expected: String::from_str(expected),
        got,
    }
}

/// Build a runtime error.
pub fn runtime_error(message: String) -> (e: LibError)
    ensures
        is_runtime(e, message@),
{
    let hints: Vec<String> = Vec::new();
    assert(hint_views(hints@) =~= Seq::<Seq<char>>::empty());
    LibError::Runtime { message, arg_position: None, hints }
}

/// Build a runtime error about the argument at `position`, with no hint.
pub fn runtime_error_at(message: String, position: usize) -> (e: LibError)
    ensures
        is_runtime_at(e, message@, Some(position), Seq::empty()),
{
    let hints: Vec<String> = Vec::new();
    assert(hint_views(hints@) =~= Seq::<Seq<char>>::empty());
    LibError::Runtime { message, arg_position: Some(position), hints }
}

/// Build a runtime error about the argument at `position` (if any), with
/// one hint.
pub fn runtime_error_with(message: String, position: Option<usize>, hint: &str) -> (e: LibError)
    ensures
        is_runtime_at(e, message@, position, seq![hint@]),
{
    let mut hints: Vec<String> = Vec::new();
    hints.push(String::from_str(hint));
    assert(hint_views(hints@) =~= seq![hint@]);
    LibError::Runtime { message, arg_position: position, hints }
}

} // verus!
