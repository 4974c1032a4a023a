//! Registration of the `debug` library: the sandbox-safe functions, and
//! frame and upvalue introspection.
use vstd::prelude::*;
use crate::env::{GlobalEnv, GlobalView, Module, keys_merged, law_merged_entries, merge_into_table, merged};
use crate::error::LibError;

verus! {

/// From `a` to `b` the module `m` was merged into the `debug` table and
/// the module type `debug` registered; nothing else changed.
pub open spec fn debug_merged(a: GlobalEnv, b: GlobalEnv, m: Module) -> bool {
    &&& forall|n: Seq<char>|
        #[trigger] b.global(n) == if n == "debug"@ {
            Some(merged(a.global("debug"@), seq![m]))
        } else {
            a.global(n)
        }
    &&& forall|n: Seq<char>| #[trigger]
        b.has_module_type(n) == (a.has_module_type(n) || n == "debug"@)
    &&& crate::env::same_rest(a, b)
}

/// Merge the module `m` into the `debug` table (creating it if needed)
/// and record the `debug` module type.
fn merge_into_debug_table(env: &mut GlobalEnv, m: Module)
    ensures
        debug_merged(*old(env), *final(env), m),
{
    let mods: [Module; 1] = [m];
    assert(mods@ =~= seq![m]);
    merge_into_table(env, "debug", &mods);
    env.register_module_type("debug");
}

/// Install `debug.traceback`, `debug.info`, `debug.getinfo` and
/// `debug.pretty_print` into the `debug` table, creating it if needed.
pub fn register(env: &mut GlobalEnv) -> (r: Result<(), LibError>)
    ensures
        r is Ok,
        debug_merged(*old(env), *final(env), Module::Debug),
        keys_merged(old(env).global("debug"@), final(env).global("debug"@), Module::Debug),
{
    merge_into_debug_table(env, Module::Debug);
    proof {
        law_merged_entries(old(env).global("debug"@), Module::Debug);
    }
    Ok(())
}

/// Install the introspection functions (`debug.getlocal`,
/// `debug.getupvalue`, `debug.setupvalue`, `debug.upvalueid`) into the
/// `debug` table.
pub fn register_introspection(env: &mut GlobalEnv) -> (r: Result<(), LibError>)
    ensures
        r is Ok,
        debug_merged(*old(env), *final(env), Module::DebugIntrospection),
        keys_merged(old(env).global("debug"@), final(env).global("debug"@), Module::DebugIntrospection),
{
    merge_into_debug_table(env, Module::DebugIntrospection);
    proof {
        law_merged_entries(old(env).global("debug"@), Module::DebugIntrospection);
    }
    Ok(())
}

/// The stack level of an optional level argument: a number is taken
/// (negative levels count as 0), anything else gives `default`.  A float
/// level is passed here already truncated to an integer.
pub fn parse_level(val: Option<i64>, default: usize) -> (r: usize)
    ensures
        r == (match val {
            Some(n) => if n < 0 {
                0
            } else {
                n as usize
            },
            None => default,
        }),
{
    match val {
        Some(n) => if n < 0 {
            0
        } else {
            n as usize
        },
        None => default,
    }
}

} // verus!
