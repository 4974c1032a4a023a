//! A minimal `debug` library: `debug.traceback` only.
use vstd::prelude::*;
use crate::env::{GlobalEnv, Module, keys_merged, law_merged_entries, merge_into_table, merged, only_global_changed};
use crate::error::LibError;

verus! {

/// Install `debug.traceback` into the `debug` table, creating it if
/// needed.
pub fn register(env: &mut GlobalEnv) -> (r: Result<(), LibError>)
    ensures
        r is Ok,
        only_global_changed(
            *old(env),
            *final(env),
            "debug"@,
            merged(old(env).global("debug"@), seq![Module::DebugTraceback]),
        ),
        keys_merged(old(env).global("debug"@), final(env).global("debug"@), Module::DebugTraceback),
{
    let mods: [Module; 1] = [Module::DebugTraceback];
    assert(mods@ =~= seq![Module::DebugTraceback]);
    merge_into_table(env, "debug", &mods);
    proof {
        law_merged_entries(old(env).global("debug"@), Module::DebugTraceback);
    }
    Ok(())
}

/// The introspection functions are not part of this library: nothing is
/// installed.
pub fn register_introspection(env: &mut GlobalEnv) -> (r: Result<(), LibError>)
    ensures
        r is Ok,
        *final(env) == *old(env),
{
    Ok(())
}

} // verus!
