//! The `io` library: parsing of file modes, the mode and the name of a
//! `io.popen` pipe, and registration of the `io` table, its standard
//! handles and `io.popen`.
use vstd::prelude::*;
use crate::env::{GlobalEnv, GlobalValue, GlobalView, Module, installed, keys_merged, law_merged_entries, merge_into_table, merged, only_global_changed, table_of};
use crate::error::{LibError, bad_argument, is_bad_argument_got, is_runtime, runtime_error};

verus! {

/// The message when a part of `io` is installed before the `io` table.
pub open spec fn no_io_table_message() -> Seq<char> {
    "io table not found; call io_lib::register() first"@
}

/// Build the `io` library table (file functions) and register it as the
/// `io` global.
pub fn register(env: &mut GlobalEnv) -> (r: Result<(), LibError>)
    ensures
        r is Ok,
        installed(*old(env), *final(env), "io"@, GlobalView::Table(seq![Module::Io]), None),
{
    let mut t: Vec<Module> = Vec::new();
    t.push(Module::Io);
    assert(t@ =~= seq![Module::Io]);
    env.set_global("io", GlobalValue::Table(t));
    Ok(())
}

/// Merge the module `m` into the existing `io` table; an error when the
/// `io` global holds no table.
fn merge_into_io_table(env: &mut GlobalEnv, m: Module) -> (r: Result<(), LibError>)
    ensures
        table_of(old(env).global("io"@)) is None ==> (r matches Err(e) && is_runtime(
            e,
            no_io_table_message(),
        ) && *final(env) == *old(env)),
        table_of(old(env).global("io"@)) is Some ==> (r is Ok && only_global_changed(
            *old(env),
            *final(env),
            "io"@,
            merged(old(env).global("io"@), seq![m]),
        )),
{
    match env.get_global("io") {
        Some(GlobalValue::Table(_)) => {},
        _ => {
            return Err(
                runtime_error(String::from_str("io table not found; call io_lib::register() first")),
            );
        },
    }
    let mods: [Module; 1] = [m];
    assert(mods@ =~= seq![m]);
    merge_into_table(env, "io", &mods);
    Ok(())
}

/// Install the standard handles and `io.read`, `io.write`, `io.flush`,
/// `io.input`, `io.output` into the existing `io` table.
pub fn register_stdio(env: &mut GlobalEnv) -> (r: Result<(), LibError>)
    ensures
        table_of(old(env).global("io"@)) is None ==> (r matches Err(e) && is_runtime(
            e,
            no_io_table_message(),
        ) && *final(env) == *old(env)),
        table_of(old(env).global("io"@)) is Some ==> (r is Ok && only_global_changed(
            *old(env),
            *final(env),
            "io"@,
            merged(old(env).global("io"@), seq![Module::IoStdio]),
        ) && keys_merged(old(env).global("io"@), final(env).global("io"@), Module::IoStdio)),
{
    proof {
        law_merged_entries(old(env).global("io"@), Module::IoStdio);
    }
    merge_into_io_table(env, Module::IoStdio)
}

/// Install `io.popen` into the existing `io` table.
pub fn register_popen(env: &mut GlobalEnv) -> (r: Result<(), LibError>)
    ensures
        table_of(old(env).global("io"@)) is None ==> (r matches Err(e) && is_runtime(
            e,
            no_io_table_message(),
        ) && *final(env) == *old(env)),
        table_of(old(env).global("io"@)) is Some ==> (r is Ok && only_global_changed(
            *old(env),
            *final(env),
            "io"@,
            merged(old(env).global("io"@), seq![Module::IoPopen]),
        ) && keys_merged(old(env).global("io"@), final(env).global("io"@), Module::IoPopen)),
{
    proof {
        law_merged_entries(old(env).global("io"@), Module::IoPopen);
    }
    merge_into_io_table(env, Module::IoPopen)
}

// ---------------------------------------------------------------------------
// File modes
// ---------------------------------------------------------------------------

/// How a file is opened.
#[derive(Debug, Clone, Copy, PartialEq, Eq, Structural)]
pub struct FileMode {
    pub read: bool,
    pub write: bool,
    pub append: bool,
    pub truncate: bool,
}

#[allow(non_snake_case)]
impl FileMode {
    /// Read-only mode (`"r"`).
    pub fn READ() -> (r: FileMode)
        ensures
            r == (FileMode { read: true, write: false, append: false, truncate: false }),
    {
        FileMode { read: true, write: false, append: false, truncate: false }
    }

    /// Write-only mode (`"w"`), truncating.
    pub fn WRITE() -> (r: FileMode)
        ensures
            r == (FileMode { read: false, write: true, append: false, truncate: true }),
    {
        FileMode { read: false, write: true, append: false, truncate: true }
    }
}

/// The text of a byte string, decoded as UTF-8 with invalid sequences
/// replaced by U+FFFD.
pub uninterp spec fn utf8_lossy(b: Seq<u8>) -> Seq<char>;

/// Every byte is ASCII.
pub open spec fn all_ascii(b: Seq<u8>) -> bool {
    forall|i: int| 0 <= i < b.len() ==> #[trigger] b[i] < 128
}

/// `String::from_utf8_lossy`: the text of the bytes, invalid UTF-8
/// replaced by U+FFFD.  Claimed: the result is a function of the bytes,
/// and ASCII bytes are kept as the same characters.
#[verifier::external_body]
pub(crate) fn lossy_text(b: &[u8]) -> (r: String)
    ensures
        r@ == utf8_lossy(b@),
        all_ascii(b@) ==> r@ == b@.map_values(|x: u8| x as char),
{
    String::from_utf8_lossy(b).into_owned()
}

/// The mode for a mode string without its trailing `b`, if valid.
pub open spec fn mode_of(m: Seq<u8>) -> Option<FileMode> {
    if m == seq![114u8] {
        Some(FileMode { read: true, write: false, append: false, truncate: false })
    } else if m == seq![119u8] {
        Some(FileMode { read: false, write: true, append: false, truncate: true })
    } else if m == seq![97u8] {
        Some(FileMode { read: false, write: true, append: true, truncate: false })
    } else if m == seq![114u8, 43u8] {
        Some(FileMode { read: true, write: true, append: false, truncate: false })
    } else if m == seq![119u8, 43u8] {
        Some(FileMode { read: true, write: true, append: false, truncate: true })
    } else if m == seq![97u8, 43u8] {
        Some(FileMode { read: true, write: true, append: true, truncate: false })
    } else {
        None
    }
}

/// A mode string without one trailing `b` (binary, ignored).
pub open spec fn strip_binary(m: Seq<u8>) -> Seq<u8> {
    if m.len() > 0 && m.last() == 98 {
        m.drop_last()
    } else {
        m
    }
}

/// Parse a Lua file mode (`r`, `w`, `a`, `r+`, `w+`, `a+`, each optionally
/// followed by `b`).  Anything else is an error `invalid mode '<mode>'`
/// naming the mode without its `b`.
pub fn parse_mode(mode: &[u8]) -> (r: Result<FileMode, String>)
    ensures
        match mode_of(strip_binary(mode@)) {
            Some(m) => r == Ok::<FileMode, String>(m),
            None => r matches Err(e) && e@ == "invalid mode '"@ + utf8_lossy(strip_binary(mode@))
                + "'"@,
        },
{
    let n = mode.len();
    let m: &[u8] = if n > 0 && mode[n - 1] == 98 {
        &mode[0..n - 1]
    } else {
        &mode[0..n]
    };
    assert(mode@.subrange(0, n as int) =~= mode@);
    assert(n > 0 ==> mode@.subrange(0, n - 1) =~= mode@.drop_last());
    assert(m@ == strip_binary(mode@));
    let k = m.len();
    if k == 1 && m[0] == 114 {
        assert(m@ =~= seq![114u8]);
        Ok(FileMode { read: true, write: false, append: false, truncate: false })
    } else if k == 1 && m[0] == 119 {
        assert(m@ =~= seq![119u8]);
        Ok(FileMode { read: false, write: true, append: false, truncate: true })
    } else if k == 1 && m[0] == 97 {
        assert(m@ =~= seq![97u8]);
        Ok(FileMode { read: false, write: true, append: true, truncate: false })
    } else if k == 2 && m[0] == 114 && m[1] == 43 {
        assert(m@ =~= seq![114u8, 43u8]);
        Ok(FileMode { read: true, write: true, append: false, truncate: false })
    } else if k == 2 && m[0] == 119 && m[1] == 43 {
        assert(m@ =~= seq![119u8, 43u8]);
        Ok(FileMode { read: true, write: true, append: false, truncate: true })
    } else if k == 2 && m[0] == 97 && m[1] == 43 {
        assert(m@ =~= seq![97u8, 43u8]);
        Ok(FileMode { read: true, write: true, append: true, truncate: false })
    } else {
        proof {
            assert(m@ == seq![114u8] ==> (k == 1 && m@[0] == 114));
            assert(m@ == seq![119u8] ==> (k == 1 && m@[0] == 119));
            assert(m@ == seq![97u8] ==> (k == 1 && m@[0] == 97));
            assert(m@ == seq![114u8, 43u8] ==> (k == 2 && m@[0] == 114 && m@[1] == 43));
            assert(m@ == seq![119u8, 43u8] ==> (k == 2 && m@[0] == 119 && m@[1] == 43));
            assert(m@ == seq![97u8, 43u8] ==> (k == 2 && m@[0] == 97 && m@[1] == 43));
            reveal_strlit("invalid mode '");
            reveal_strlit("'");
        }
        let mut e = String::from_str("invalid mode '");
        let t = lossy_text(m);
        e.append(t.as_str());
        e.append("'");
        Err(e)
    }
}


/// The direction of a `io.popen` pipe.
#[derive(Debug, Clone, Copy, PartialEq, Eq, Structural)]
pub enum PopenMode {
    /// Read the command's standard output.
    Read,
    /// Write the command's standard input.
    Write,
}

/// The `Debug` rendering of `bstr::BStr` for `b`: the bytes quoted, with
/// escapes.
pub uninterp spec fn bstr_debug(b: Seq<u8>) -> Seq<char>;

/// `format!("{:?}", bstr::BStr::new(b))`.
#[verifier::external_body]
fn debug_bytes(b: &[u8]) -> (r: String)
    ensures
        r@ == bstr_debug(b@),
{
    format!("{:?}", bstr::BStr::new(b))
}

/// The mode of `io.popen`: `r` (the default) reads, `w` writes; any other
/// is a bad argument 2, shown quoted.
pub fn popen_mode(mode: Option<&[u8]>) -> (r: Result<PopenMode, LibError>)
    ensures
        match mode {
            None => r == Ok::<PopenMode, LibError>(PopenMode::Read),
            Some(m) => if m@ == seq![114u8] {
                r == Ok::<PopenMode, LibError>(PopenMode::Read)
            } else if m@ == seq![119u8] {
                r == Ok::<PopenMode, LibError>(PopenMode::Write)
            } else {
                r matches Err(e) && is_bad_argument_got(e, 2, "popen"@, "'r' or 'w'"@, bstr_debug(m@))
            },
        },
{
    match mode {
        None => Ok(PopenMode::Read),
        Some(m) => {
            if m.len() == 1 && m[0] == 114 {
                assert(m@ =~= seq![114u8]);
                Ok(PopenMode::Read)
            } else if m.len() == 1 && m[0] == 119 {
                assert(m@ =~= seq![119u8]);
                Ok(PopenMode::Write)
            } else {
                proof {
                    if m@ == seq![114u8] || m@ == seq![119u8] {
                        assert(m@.len() == 1);
                    }
                }
                Err(bad_argument(2, "popen", "'r' or 'w'", debug_bytes(m)))
            }
        },
    }
}

/// The name of a `io.popen` handle: the shell command line, invalid
/// UTF-8 replaced.
pub fn popen_display(prog: &[u8]) -> (r: String)
    ensures
        r@ == "(popen: /bin/sh -c "@ + utf8_lossy(prog@) + ")"@,
{
    let mut s = String::from_str("(popen: /bin/sh -c ");
    let t = lossy_text(prog);
    s.append(t.as_str());
    s.append(")");
    s
}

} // verus!
