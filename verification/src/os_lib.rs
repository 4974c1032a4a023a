//! Registration of the `os` library and of its gated parts, and the
//! rules of `os.getenv`, `os.rename` and `os.tmpname` around the system
//! calls.
use vstd::prelude::*;
use crate::env::{GlobalEnv, GlobalValue, GlobalView, Module, installed, keys_merged, law_merged_entries, merge_into_table, merged, only_global_changed};
use crate::error::LibError;
use crate::format::{hex_digits, push_hex};
use crate::io_lib::{lossy_text, utf8_lossy};

verus! {

/// Build the `os` library table (clock and calendar functions) and
/// register it as the `os` global.
pub fn register(env: &mut GlobalEnv) -> (r: Result<(), LibError>)
    ensures
        r is Ok,
        installed(*old(env), *final(env), "os"@, GlobalView::Table(seq![Module::Os]), None),
{
    let mut t: Vec<Module> = Vec::new();
    t.push(Module::Os);
    assert(t@ =~= seq![Module::Os]);
    env.set_global("os", GlobalValue::Table(t));
    Ok(())
}

/// Merge the module `m` into the `os` table, creating it if needed.
fn merge_into_os_table(env: &mut GlobalEnv, m: Module)
    ensures
        only_global_changed(*old(env), *final(env), "os"@, merged(old(env).global("os"@), seq![m])),
{
    let mods: [Module; 1] = [m];
    assert(mods@ =~= seq![m]);
    merge_into_table(env, "os", &mods);
}

/// Install the file-system functions (`os.remove`, `os.rename`,
/// `os.tmpname`) into the `os` table, creating it if needed.
pub fn register_fs(env: &mut GlobalEnv) -> (r: Result<(), LibError>)
    ensures
        r is Ok,
        only_global_changed(
            *old(env),
            *final(env),
            "os"@,
            merged(old(env).global("os"@), seq![Module::OsFs]),
        ),
        keys_merged(old(env).global("os"@), final(env).global("os"@), Module::OsFs),
{
    merge_into_os_table(env, Module::OsFs);
    proof {
        law_merged_entries(old(env).global("os"@), Module::OsFs);
    }
    Ok(())
}

/// Install `os.execute` into the `os` table, creating it if needed.
pub fn register_exec(env: &mut GlobalEnv) -> (r: Result<(), LibError>)
    ensures
        r is Ok,
        only_global_changed(
            *old(env),
            *final(env),
            "os"@,
            merged(old(env).global("os"@), seq![Module::OsExec]),
        ),
        keys_merged(old(env).global("os"@), final(env).global("os"@), Module::OsExec),
{
    merge_into_os_table(env, Module::OsExec);
    proof {
        law_merged_entries(old(env).global("os"@), Module::OsExec);
    }
    Ok(())
}

/// Install `os.getenv` into the `os` table, creating it if needed.
pub fn register_env(env: &mut GlobalEnv) -> (r: Result<(), LibError>)
    ensures
        r is Ok,
        only_global_changed(
            *old(env),
            *final(env),
            "os"@,
            merged(old(env).global("os"@), seq![Module::OsEnv]),
        ),
        keys_merged(old(env).global("os"@), final(env).global("os"@), Module::OsEnv),
{
    merge_into_os_table(env, Module::OsEnv);
    proof {
        law_merged_entries(old(env).global("os"@), Module::OsEnv);
    }
    Ok(())
}

/// Install `os.exit` into the `os` table, creating it if needed.
pub fn register_exit(env: &mut GlobalEnv) -> (r: Result<(), LibError>)
    ensures
        r is Ok,
        only_global_changed(
            *old(env),
            *final(env),
            "os"@,
            merged(old(env).global("os"@), seq![Module::OsExit]),
        ),
        keys_merged(old(env).global("os"@), final(env).global("os"@), Module::OsExit),
{
    merge_into_os_table(env, Module::OsExit);
    proof {
        law_merged_entries(old(env).global("os"@), Module::OsExit);
    }
    Ok(())
}


/// A name that can name an environment variable: not empty, without NUL
/// or `=`.  `os.getenv` answers nil for any other without asking.
pub open spec fn env_name_usable_spec(name: Seq<u8>) -> bool {
    name.len() > 0 && forall|i: int| 0 <= i < name.len() ==> #[trigger] name[i] != 0 && name[i] != 61
}

/// Whether `name` can name an environment variable (see
/// `env_name_usable_spec`).
pub fn env_name_usable(name: &[u8]) -> (r: bool)
    ensures
        r == env_name_usable_spec(name@),
{
    if name.len() == 0 {
        return false;
    }
    let mut i: usize = 0;
    while i < name.len()
        invariant
            i <= name@.len(),
            forall|k: int| 0 <= k < i ==> #[trigger] name@[k] != 0 && name@[k] != 61,
        decreases name@.len() - i,
    {
        if name[i] == 0 || name[i] == 61 {
            return false;
        }
        i = i + 1;
    }
    true
}

/// The message of a failed `os.rename`: both names (invalid UTF-8
/// replaced), then the failure, since either side may be its cause.
pub fn rename_failure(old: &[u8], new: &[u8], description: &str) -> (r: String)
    ensures
        r@ == utf8_lossy(old@) + " -> "@ + utf8_lossy(new@) + ": "@ + description@,
{
    let mut s = lossy_text(old);
    s.append(" -> ");
    let t = lossy_text(new);
    s.append(t.as_str());
    s.append(": ");
    s.append(description);
    s
}

/// The file name that `os.tmpname` puts in the temporary directory for
/// the random number `n`: `lua_` and `n` in lowercase hexadecimal,
/// zero-padded to 16 digits.
pub open spec fn tmp_file_name_spec(n: u64) -> Seq<u8> {
    let digits = hex_digits(n as nat, false);
    let pad = if digits.len() < 16 {
        16 - digits.len()
    } else {
        0
    };
    seq![108u8, 117u8, 97u8, 95u8] + Seq::new(pad as nat, |i: int| 48u8) + digits
}

/// The file name of `os.tmpname` for `n` (see `tmp_file_name_spec`).
pub fn tmp_file_name(n: u64) -> (r: Vec<u8>)
    ensures
        r@ == tmp_file_name_spec(n),
{
    let mut digits: Vec<u8> = Vec::new();
    push_hex(&mut digits, n, false);
    assert(digits@ =~= hex_digits(n as nat, false));
    let mut out: Vec<u8> = vec![108u8, 117u8, 97u8, 95u8];
    let pad: usize = if digits.len() < 16 {
        16 - digits.len()
    } else {
        0
    };
    let mut k: usize = 0;
    while k < pad
        invariant
            k <= pad,
            out@ == seq![108u8, 117u8, 97u8, 95u8] + Seq::new(k as nat, |i: int| 48u8),
        decreases pad - k,
    {
        out.push(48u8);
        k = k + 1;
        assert(out@ =~= seq![108u8, 117u8, 97u8, 95u8] + Seq::new(k as nat, |i: int| 48u8));
    }
    crate::byte_str::append_all(&mut out, digits.as_slice());
    out
}

} // verus!
