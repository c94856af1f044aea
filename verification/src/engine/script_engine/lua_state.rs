//! Creating the Lua state of an engine from its runtime policy.

use mlua::Error as MluaError;
use vstd::prelude::*;

use super::lua_runtime_policy::{selected_std_libs, LuaRuntimePolicy};
use crate::support::lua_api::{lua_with_std_libs, set_lua_memory_limit, LuaState};

verus! {

/// Creates a Lua state with the policy's standard libraries and, when the
/// policy sets one, its memory limit. The state cannot load `debug`: a
/// policy that enables it is refused.
pub fn create_restricted_lua(policy: &LuaRuntimePolicy) -> (r: core::result::Result<LuaState, MluaError>)
    ensures
        policy.spec_std_lib_policy().debug ==> r is Err,
        !policy.spec_std_lib_policy().debug ==> r is Ok,
        r matches Ok(s) ==> s@ == (
            selected_std_libs(policy.spec_std_lib_policy()),
            policy.spec_limits().max_memory_bytes,
        ),
{
    let libs = policy.std_lib_policy().selected_libs();
    let mut state = lua_with_std_libs(libs.as_slice())?;
    if let Some(max_memory_bytes) = policy.limits().max_memory_bytes {
        set_lua_memory_limit(&mut state, max_memory_bytes)?;
    }
    Ok(state)
}

} // verus!
