//! Shingetsu standard library core: the byte-level Lua pattern matcher,
//! the `bit32` and `string` library operations, and the registration of
//! the standard libraries into a global environment.

pub mod bit32;
pub mod builtins;
pub mod byte_str;
pub mod coerce;
pub mod config;
pub mod debug;
pub mod debug_frames;
pub mod debug_lib;
pub mod decimal;
pub mod diagnostic;
pub mod env;
pub mod error;
pub mod format;
pub mod io_lib;
pub mod libraries;
pub mod lint_walk;
pub mod load_chunk;
pub mod lint_registry;
pub mod lua_pattern;
pub mod math_lib;
pub mod os_date;
pub mod os_time;
pub mod os_lib;
pub mod pretty;
pub mod report;
pub mod process;
pub mod regex_lib;
pub mod regex_bytes;
pub mod regex_fancy;
pub mod regex_search;
pub mod search;
pub mod shlex_lib;
pub mod string_lib;

pub use env::{GlobalEnv, GlobalValue, Module};
pub use libraries::Libraries;

use vstd::prelude::*;
use crate::builtins::sandboxed_global;
use crate::env::{GlobalView, cache_loaded, install_module, merged};
use crate::error::LibError;
use crate::libraries::{
    BUILTINS_BIT,
    DEBUG_BIT,
    ENV_BIT,
    EXEC_BIT,
    EXIT_BIT,
    IO_BIT,
    LOAD_BIT,
    OS_BIT,
    PACKAGE_BIT,
    REGEX_BIT,
    STDIO_BIT,
    TASK_BIT,
};

verus! {

/// The libraries actually registered for `libs`: `STDIO` and `EXEC` pull
/// in `IO`.
pub open spec fn effective_bits(libs: u32) -> u32 {
    if libs & STDIO_BIT != 0 || libs & EXEC_BIT != 0 {
        libs | IO_BIT
    } else {
        libs
    }
}

/// Is the flag `f` set in `l`?
pub open spec fn flag(l: u32, f: u32) -> bool {
    l & f != 0
}

/// A global after the core libraries were (or were not) installed.
pub open spec fn after_builtins(l: u32, before: Option<GlobalView>, n: Seq<char>) -> Option<GlobalView> {
    if flag(l, BUILTINS_BIT) {
        sandboxed_global(before, n)
    } else {
        before
    }
}

/// The `io` global after registration.
pub open spec fn io_after(l: u32, prev: Option<GlobalView>) -> Option<GlobalView> {
    if flag(l, IO_BIT) {
        let a = seq![Module::Io];
        let b = if flag(l, STDIO_BIT) {
            a + seq![Module::IoStdio]
        } else {
            a
        };
        let c = if flag(l, EXEC_BIT) {
            b + seq![Module::IoPopen]
        } else {
            b
        };
        Some(GlobalView::Table(c))
    } else {
        prev
    }
}

/// Merge `m` into `v` when the flag `f` is set.
pub open spec fn merge_if(l: u32, f: u32, v: Option<GlobalView>, m: Module) -> Option<GlobalView> {
    if flag(l, f) {
        Some(merged(v, seq![m]))
    } else {
        v
    }
}

/// The `os` global after registration.
pub open spec fn os_after(l: u32, prev: Option<GlobalView>) -> Option<GlobalView> {
    let base = if flag(l, OS_BIT) {
        Some(GlobalView::Table(seq![Module::Os]))
    } else {
        prev
    };
    merge_if(
        l,
        EXIT_BIT,
        merge_if(
            l,
            ENV_BIT,
            merge_if(l, EXEC_BIT, merge_if(l, IO_BIT, base, Module::OsFs), Module::OsExec),
            Module::OsEnv,
        ),
        Module::OsExit,
    )
}

/// The `debug` global after registration: the sandbox-safe functions are
/// always merged in, introspection only with `DEBUG`.
pub open spec fn debug_after(l: u32, prev: Option<GlobalView>) -> Option<GlobalView> {
    merge_if(l, DEBUG_BIT, Some(merged(prev, seq![Module::Debug])), Module::DebugIntrospection)
}

/// The names whose globals `register_libs` caches in `loaded`.
pub open spec fn cached_name(n: Seq<char>) -> bool {
    n == "os"@ || n == "io"@ || n == "debug"@ || n == "regex"@
}

/// The package search path installed with `PACKAGE`.
pub open spec fn default_package_path() -> Seq<char> {
    "./?.lua;./?.luau"@
}

/// Install the `task` library table.
fn register_task(env: &mut GlobalEnv)
    ensures
        crate::env::installed(
            *old(env),
            *final(env),
            "task"@,
            GlobalView::Table(seq![Module::Task]),
            Some("task"@),
        ),
{
    install_module(env, "task", Module::Task);
}

proof fn lemma_names_distinct()
    ensures
        "io"@ != "os"@,
        "io"@ != "debug"@,
        "io"@ != "regex"@,
        "io"@ != "task"@,
        "os"@ != "debug"@,
        "os"@ != "regex"@,
        "os"@ != "task"@,
        "debug"@ != "regex"@,
        "debug"@ != "task"@,
        "regex"@ != "task"@,
        "print"@ != "io"@,
        "print"@ != "os"@,
        "print"@ != "debug"@,
        "print"@ != "regex"@,
        "print"@ != "task"@,
        !crate::env::has_str(crate::builtins::load_names(), "io"@),
        !crate::env::has_str(crate::builtins::load_names(), "os"@),
        !crate::env::has_str(crate::builtins::load_names(), "debug"@),
        !crate::env::has_str(crate::builtins::load_names(), "regex"@),
        !crate::env::has_str(crate::builtins::load_names(), "print"@),
{
    reveal_strlit("io");
    reveal_strlit("os");
    reveal_strlit("debug");
    reveal_strlit("regex");
    reveal_strlit("task");
    reveal_strlit("print");
    reveal_strlit("load");
    reveal_strlit("loadfile");
    reveal_strlit("dofile");
    assert("io"@[0] != "os"@[0]);
    assert("io"@.len() != "debug"@.len());
    assert("io"@.len() != "regex"@.len());
    assert("io"@.len() != "task"@.len());
    assert("os"@.len() != "debug"@.len());
    assert("os"@.len() != "regex"@.len());
    assert("os"@.len() != "task"@.len());
    assert("debug"@[0] != "regex"@[0]);
    assert("debug"@.len() != "task"@.len());
    assert("regex"@.len() != "task"@.len());
    assert("print"@.len() != "io"@.len());
    assert("print"@.len() != "os"@.len());
    assert("print"@[0] != "debug"@[0]);
    assert("print"@[0] != "regex"@[0]);
    assert("print"@.len() != "task"@.len());
    let ln = crate::builtins::load_names();
    assert forall|n: Seq<char>|
        n == "io"@ || n == "os"@ || n == "debug"@ || n == "regex"@ || n == "print"@ implies !crate::env::has_str(
        ln,
        n,
    ) by {
        if crate::env::has_str(ln, n) {
            let k = choose|k: int| 0 <= k < ln.len() && (#[trigger] ln[k])@ == n;
            assert(k == 0 || k == 1 || k == 2);
            assert(ln[0]@ == "load"@ && ln[1]@ == "loadfile"@ && ln[2]@ == "dofile"@);
            assert("load"@[0] != "io"@[0] && "load"@[0] != "os"@[0] && "load"@[0] != "debug"@[0]
                && "load"@[0] != "regex"@[0] && "load"@[0] != "print"@[0]);
            assert("loadfile"@[0] != "io"@[0] && "loadfile"@[0] != "os"@[0] && "loadfile"@[0]
                != "debug"@[0] && "loadfile"@[0] != "regex"@[0] && "loadfile"@[0] != "print"@[0]);
            assert("dofile"@[1] != "io"@[1] && "dofile"@[1] != "os"@[1] && "dofile"@[0]
                != "debug"@[0] && "dofile"@[0] != "regex"@[0] && "dofile"@[0] != "print"@[0]);
        }
    }
}

/// Install the core libraries when `BUILTINS` is set.
fn register_core(env: &mut GlobalEnv, l: u32)
    ensures
        forall|n: Seq<char>| #[trigger] final(env).global(n) == after_builtins(l, old(env).global(n), n),
        final(env).package_path() == old(env).package_path(),
        final(env).has_module_loader() == old(env).has_module_loader(),
{
    if l & BUILTINS_BIT != 0 {
        let _ = crate::builtins::register_sandboxed(env);
    }
}

/// Install `io` and `os` and their gated parts.
fn register_os_io(env: &mut GlobalEnv, l: u32)
    requires
        flag(l, STDIO_BIT) || flag(l, EXEC_BIT) ==> flag(l, IO_BIT),
    ensures
        final(env).global("io"@) == io_after(l, old(env).global("io"@)),
        final(env).global("os"@) == os_after(l, old(env).global("os"@)),
        forall|n: Seq<char>|
            n != "io"@ && n != "os"@ ==> #[trigger] final(env).global(n) == old(env).global(n),
        final(env).package_path() == old(env).package_path(),
        final(env).has_module_loader() == old(env).has_module_loader(),
{
    proof {
        lemma_names_distinct();
    }
    let ghost io0 = env.global("io"@);
    let ghost os0 = env.global("os"@);
    let ghost e0 = *env;
    if l & OS_BIT != 0 {
        let _ = crate::os_lib::register(env);
    }
    let ghost os1 = env.global("os"@);
    assert(os1 == (if flag(l, OS_BIT) {
        Some(GlobalView::Table(seq![Module::Os]))
    } else {
        os0
    }));
    assert(env.global("io"@) == io0);
    assert(forall|n: Seq<char>| n != "io"@ && n != "os"@ ==> #[trigger] env.global(n) == e0.global(n));
    if l & IO_BIT != 0 {
        let _ = crate::io_lib::register(env);
        let _ = crate::os_lib::register_fs(env);
    }
    let ghost io2 = env.global("io"@);
    let ghost os2 = env.global("os"@);
    assert(os2 == merge_if(l, IO_BIT, os1, Module::OsFs));
    assert(flag(l, IO_BIT) ==> io2 == Some(GlobalView::Table(seq![Module::Io])));
    assert(!flag(l, IO_BIT) ==> io2 == io0);
    assert(forall|n: Seq<char>| n != "io"@ && n != "os"@ ==> #[trigger] env.global(n) == e0.global(n));
    if l & STDIO_BIT != 0 {
        let _ = crate::io_lib::register_stdio(env);
    }
    let ghost io3 = env.global("io"@);
    assert(env.global("os"@) == os2);
    assert(forall|n: Seq<char>| n != "io"@ && n != "os"@ ==> #[trigger] env.global(n) == e0.global(n));
    if l & EXEC_BIT != 0 {
        let _ = crate::io_lib::register_popen(env);
        let _ = crate::os_lib::register_exec(env);
    }
    assert(env.global("io"@) == io_after(l, io0));
    assert(env.global("os"@) == merge_if(l, EXEC_BIT, os2, Module::OsExec));
    assert(forall|n: Seq<char>| n != "io"@ && n != "os"@ ==> #[trigger] env.global(n) == e0.global(n));
    if l & ENV_BIT != 0 {
        let _ = crate::os_lib::register_env(env);
    }
    if l & EXIT_BIT != 0 {
        let _ = crate::os_lib::register_exit(env);
    }
}

/// Install `package` support, `load`, `task` and `regex` as requested.
fn register_extras(env: &mut GlobalEnv, l: u32)
    ensures
        final(env).global("regex"@) == if flag(l, REGEX_BIT) {
            Some(GlobalView::Table(seq![Module::Regex]))
        } else {
            old(env).global("regex"@)
        },
        final(env).global("io"@) == old(env).global("io"@),
        final(env).global("os"@) == old(env).global("os"@),
        final(env).global("debug"@) == old(env).global("debug"@),
        final(env).global("print"@) == old(env).global("print"@),
        flag(l, PACKAGE_BIT) ==> final(env).package_path() == Some(default_package_path())
            && final(env).has_module_loader(),
        !flag(l, PACKAGE_BIT) ==> final(env).package_path() == old(env).package_path()
            && final(env).has_module_loader() == old(env).has_module_loader(),
{
    proof {
        lemma_names_distinct();
    }
    if l & PACKAGE_BIT != 0 {
        proof {
            reveal_strlit("./?.lua;./?.luau");
        }
        env.set_package_path(Some(String::from_str("./?.lua;./?.luau")));
        env.set_module_loader();
    }
    if l & LOAD_BIT != 0 {
        let _ = crate::builtins::register_load(env);
    }
    if l & TASK_BIT != 0 {
        register_task(env);
    }
    if l & REGEX_BIT != 0 {
        let _ = crate::regex_lib::register(env);
    }
}

/// Install the `debug` table: the sandbox-safe functions always, the
/// introspection ones with `DEBUG`.
fn register_debug(env: &mut GlobalEnv, l: u32)
    ensures
        final(env).global("debug"@) == debug_after(l, old(env).global("debug"@)),
        forall|n: Seq<char>| n != "debug"@ ==> #[trigger] final(env).global(n) == old(env).global(n),
        final(env).package_path() == old(env).package_path(),
        final(env).has_module_loader() == old(env).has_module_loader(),
{
    let _ = crate::debug::register(env);
    if l & DEBUG_BIT != 0 {
        let _ = crate::debug::register_introspection(env);
    }
}

/// Register the requested standard libraries into `env`.  `STDIO` and
/// `EXEC` pull in `IO`; the sandbox-safe `debug` functions are always
/// registered; the `os`, `io`, `debug` and `regex` tables are cached in
/// `loaded` for `require`.
pub fn register_libs(env: &mut GlobalEnv, libs: Libraries) -> (r: Result<(), LibError>)
    ensures
        r is Ok,
        ({
            let l = effective_bits(libs.bits);
            let b = |n: Seq<char>| after_builtins(l, old(env).global(n), n);
            &&& final(env).global("io"@) == io_after(l, b("io"@))
            &&& final(env).global("os"@) == os_after(l, b("os"@))
            &&& final(env).global("debug"@) == debug_after(l, b("debug"@))
            &&& final(env).global("regex"@) == if flag(l, REGEX_BIT) {
                Some(GlobalView::Table(seq![Module::Regex]))
            } else {
                b("regex"@)
            }
            &&& final(env).global("print"@) == b("print"@)
            &&& forall|n: Seq<char>|
                cached_name(n) && #[trigger] final(env).global(n) is Some ==> final(env).loaded(n)
                    == final(env).global(n)
            &&& flag(l, PACKAGE_BIT) ==> final(env).package_path() == Some(default_package_path())
                && final(env).has_module_loader()
            &&& !flag(l, PACKAGE_BIT) ==> final(env).package_path() == old(env).package_path()
                && final(env).has_module_loader() == old(env).has_module_loader()
        }),
{
    let bits = libs.bits;
    let mut l = bits;
    if l & STDIO_BIT != 0 || l & EXEC_BIT != 0 {
        l = l | IO_BIT;
    }
    proof {
        lemma_names_distinct();
        assert(l & 8 != 0 || l & 16 != 0 ==> l & 4 != 0) by (bit_vector)
            requires
                l == (if bits & 8 != 0 || bits & 16 != 0 {
                    bits | 4
                } else {
                    bits
                }),
        ;
    }
    register_core(env, l);
    register_os_io(env, l);
    register_extras(env, l);
    register_debug(env, l);
    let names: [&str; 4] = ["os", "io", "debug", "regex"];
    cache_loaded(env, &names);
    proof {
        assert forall|n: Seq<char>|
            cached_name(n) && #[trigger] env.global(n) is Some implies env.loaded(n) == env.global(
                n,
            ) by {
            if n == "os"@ {
                assert(names@[0]@ == n);
            } else if n == "io"@ {
                assert(names@[1]@ == n);
            } else if n == "debug"@ {
                assert(names@[2]@ == n);
            } else {
                assert(names@[3]@ == n);
            }
        }
    }
    Ok(())
}

/// `STDIO` or `EXEC` always installs the `io` table, holding the stdio
/// part with `STDIO` and `io.popen` with `EXEC`.
pub proof fn law_stdio_or_exec_installs_io(libs: u32, prev: Option<GlobalView>)
    requires
        flag(libs, STDIO_BIT) || flag(libs, EXEC_BIT),
    ensures
        io_after(effective_bits(libs), prev) matches Some(GlobalView::Table(m)) && m[0]
            == Module::Io && (flag(libs, STDIO_BIT) ==> m.contains(Module::IoStdio)) && (flag(
            libs,
            EXEC_BIT,
        ) ==> m.contains(Module::IoPopen)),
{
    let l = effective_bits(libs);
    assert(flag(l, IO_BIT) && (flag(libs, STDIO_BIT) ==> flag(l, STDIO_BIT)) && (flag(
        libs,
        EXEC_BIT,
    ) ==> flag(l, EXEC_BIT))) by (bit_vector)
        requires
            l == (if libs & 8 != 0 || libs & 16 != 0 {
                libs | 4
            } else {
                libs
            }),
            libs & 8 != 0 || libs & 16 != 0,
    ;
    let a = seq![Module::Io];
    let b = if flag(l, STDIO_BIT) {
        a + seq![Module::IoStdio]
    } else {
        a
    };
    let c = if flag(l, EXEC_BIT) {
        b + seq![Module::IoPopen]
    } else {
        b
    };
    assert(c[0] == Module::Io);
    if flag(l, STDIO_BIT) {
        assert(b[1] == Module::IoStdio);
        assert(c[1] == Module::IoStdio);
    }
    if flag(l, EXEC_BIT) {
        assert(c[c.len() - 1] == Module::IoPopen);
    }
}

/// The `debug` table is installed whatever the selection, with the
/// sandbox-safe functions in it.
pub proof fn law_debug_always_present(l: u32, prev: Option<GlobalView>)
    ensures
        debug_after(l, prev) matches Some(GlobalView::Table(m)) && m.contains(Module::Debug),
{
    let base = merged(prev, seq![Module::Debug]);
    match table_of_view(prev) {
        Some(m0) => {
            assert((m0 + seq![Module::Debug])[m0.len() as int] == Module::Debug);
        },
        None => {
            assert(seq![Module::Debug][0] == Module::Debug);
        },
    }
    if flag(l, DEBUG_BIT) {
        match base {
            GlobalView::Table(m1) => {
                assert(m1.contains(Module::Debug));
                let k = choose|k: int| 0 <= k < m1.len() && m1[k] == Module::Debug;
                assert((m1 + seq![Module::DebugIntrospection])[k] == Module::Debug);
            },
            GlobalView::Function(_) => {},
        }
    }
}

/// The table value of a global, or nothing.
pub open spec fn table_of_view(v: Option<GlobalView>) -> Option<Seq<Module>> {
    crate::env::table_of(v)
}

/// The sandboxed selection installs neither `io` nor `os`: both globals
/// keep whatever the core libraries left there.
pub proof fn law_sandboxed_leaves_io_and_os(prev_io: Option<GlobalView>, prev_os: Option<GlobalView>)
    ensures
        io_after(effective_bits(crate::libraries::SANDBOXED_BITS), prev_io) == prev_io,
        os_after(effective_bits(crate::libraries::SANDBOXED_BITS), prev_os) == prev_os,
{
    assert(2049u32 & 8 == 0 && 2049u32 & 16 == 0 && 2049u32 & 4 == 0 && 2049u32 & 2 == 0
        && 2049u32 & 32 == 0 && 2049u32 & 64 == 0) by (bit_vector);
}


/// Neither `io` nor `os` is a core global or a sandbox-safe table.
proof fn lemma_io_os_not_core()
    ensures
        sandboxed_global(None, "io"@) is None,
        sandboxed_global(None, "os"@) is None,
{
    reveal_strlit("type");
    reveal_strlit("typeof");
    reveal_strlit("rawget");
    reveal_strlit("rawset");
    reveal_strlit("rawequal");
    reveal_strlit("rawlen");
    reveal_strlit("tonumber");
    reveal_strlit("tostring");
    reveal_strlit("next");
    reveal_strlit("getmetatable");
    reveal_strlit("setmetatable");
    reveal_strlit("select");
    reveal_strlit("error");
    reveal_strlit("assert");
    reveal_strlit("pairs");
    reveal_strlit("ipairs");
    reveal_strlit("print");
    reveal_strlit("collectgarbage");
    reveal_strlit("bit32");
    reveal_strlit("math");
    reveal_strlit("string");
    reveal_strlit("table");
    reveal_strlit("utf8");
    reveal_strlit("io");
    reveal_strlit("os");
    assert forall|k: int| 0 <= k < crate::builtins::builtin_names().len() implies (#[trigger] crate::builtins::builtin_names()[k])@.len() > 2 by {
    }
    assert("io"@.len() == 2 && "os"@.len() == 2);
    assert(!crate::env::has_str(crate::builtins::builtin_names(), "io"@));
    assert(!crate::env::has_str(crate::builtins::builtin_names(), "os"@));
    assert(crate::builtins::sandboxed_table("io"@) is None);
    assert(crate::builtins::sandboxed_table("os"@) is None);
}

/// A fresh environment for loading lint plugins: the sandboxed libraries
/// (the core globals, `regex`, and the sandbox-safe `debug` functions)
/// registered into an empty environment, with no `io` and no `os`.  The
/// plugin host module is wired in by the interpreter.
pub fn new_plugin_env() -> (r: Result<GlobalEnv, LibError>)
    ensures
        r matches Ok(env) && ({
            let l = effective_bits(crate::libraries::SANDBOXED_BITS);
            let b = |n: Seq<char>| after_builtins(l, None, n);
            &&& env.global("io"@) == io_after(l, b("io"@))
            &&& env.global("os"@) == os_after(l, b("os"@))
            &&& env.global("debug"@) == debug_after(l, b("debug"@))
            &&& env.global("regex"@) == Some(GlobalView::Table(seq![Module::Regex]))
            &&& env.global("print"@) == b("print"@)
            &&& forall|n: Seq<char>|
                cached_name(n) && #[trigger] env.global(n) is Some ==> env.loaded(n) == env.global(n)
            &&& env.package_path() is None
            &&& !env.has_module_loader()
        }),
        r matches Ok(env) ==> env.global("io"@) is None && env.global("os"@) is None,
{
    let mut env = GlobalEnv::new();
    let libs = Libraries::SANDBOXED();
    let r = register_libs(&mut env, libs);
    proof {
        assert(2049u32 & 2048 != 0 && 2049u32 & 256 == 0 && 2049u32 & 8 == 0 && 2049u32 & 16 == 0) by (bit_vector);
        lemma_io_os_not_core();
        law_sandboxed_leaves_io_and_os(
            after_builtins(effective_bits(crate::libraries::SANDBOXED_BITS), None, "io"@),
            after_builtins(effective_bits(crate::libraries::SANDBOXED_BITS), None, "os"@),
        );
    }
    match r {
        Ok(()) => Ok(env),
        Err(e) => Err(e),
    }
}

} // verus!
