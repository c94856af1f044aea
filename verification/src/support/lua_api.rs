//! Calls into the `mlua` crate.

use mlua::Error as MluaError;
use mlua::{Lua, LuaOptions, StdLib};
use vstd::prelude::*;

use crate::engine::script_engine::lua_runtime_policy::LuaStdLib;

verus! {

/// The Lua error type of `mlua`.
#[verifier::external_type_specification]
#[verifier::external_body]
pub struct ExLuaError(MluaError);

/// The texts (`Display`) of the errors that `mlua::Error::chain` walks for
/// `err`: the error itself, then its causes, skipping the wrappers of
/// external errors. They depend on the error alone.
pub uninterp spec fn lua_error_texts(err: MluaError) -> Seq<Seq<char>>;

/// The text of each error that `mlua::Error::chain` walks (see
/// `lua_error_texts`); what the texts hold is named, not stated.
#[verifier::external_body]
pub(crate) fn lua_error_chain_texts(err: &MluaError) -> (r: Vec<String>)
    ensures
        r@.map_values(|s: String| s@) == lua_error_texts(*err),
{
    err.chain().map(|item| item.to_string()).collect()
}

/// The Lua state type of `mlua`.
#[verifier::external_type_specification]
#[verifier::external_body]
pub struct ExLua(Lua);

/// A Lua state of `mlua` with what it was made with: the standard libraries
/// loaded besides the base library, and the memory limit set, if any.
/// Values come only from the calls into `mlua` below, which fill both parts.
pub struct LuaState {
    lua: Lua,
    libs: Vec<LuaStdLib>,
    memory_limit: Option<usize>,
}

impl View for LuaState {
    type V = (Seq<LuaStdLib>, Option<usize>);

    /// The libraries loaded and the memory limit.
    closed spec fn view(&self) -> (Seq<LuaStdLib>, Option<usize>) {
        (self.libs@, self.memory_limit)
    }
}

impl LuaState {
    /// The standard libraries loaded besides the base library.
    pub fn std_libs(&self) -> (r: &Vec<LuaStdLib>)
        ensures
            r@ == self@.0,
    {
        &self.libs
    }

    /// The memory limit set, if any.
    pub fn memory_limit(&self) -> (r: Option<usize>)
        ensures
            r == self@.1,
    {
        self.memory_limit
    }

    /// The `mlua` state.
    pub fn lua(&self) -> &Lua {
        &self.lua
    }

    /// The `mlua` state, taken out.
    pub fn into_lua(self) -> Lua {
        self.lua
    }
}

/// mlua's `Lua::new_with` with the given standard libraries (each turned
/// into its `StdLib` flag) and default options. Claimed, per its source
/// (Lua 5.4): it refuses exactly a set holding the unsafe `debug` library;
/// otherwise the state has these libraries loaded and no memory limit.
#[verifier::external_body]
pub(crate) fn lua_with_std_libs(libs: &[LuaStdLib]) -> (r: core::result::Result<LuaState, MluaError>)
    ensures
        r is Err <==> libs@.contains(LuaStdLib::Debug),
        r matches Ok(s) ==> s@ == (libs@, None::<usize>),
{
    let flags = libs.iter().fold(StdLib::NONE, |acc, lib| acc | match lib {
        LuaStdLib::Coroutine => StdLib::COROUTINE, LuaStdLib::Math => StdLib::MATH,
        LuaStdLib::String => StdLib::STRING, LuaStdLib::Table => StdLib::TABLE,
        LuaStdLib::Utf8 => StdLib::UTF8, LuaStdLib::Package => StdLib::PACKAGE,
        LuaStdLib::Io => StdLib::IO, LuaStdLib::Os => StdLib::OS, LuaStdLib::Debug => StdLib::DEBUG,
    });
    let lua = Lua::new_with(flags, LuaOptions::default())?;
    Ok(LuaState { lua, libs: libs.to_vec(), memory_limit: None })
}

/// mlua's `Lua::set_memory_limit`. Claimed: it succeeds, and the state's
/// memory limit is then `limit`. Its source fails only for a state whose
/// allocator is not mlua's own; every `LuaState` comes from `Lua::new_with`
/// (`lua_with_std_libs`), which installs that allocator (it falls back to
/// Lua's only when the system refuses the state's first allocation).
#[verifier::external_body]
pub(crate) fn set_lua_memory_limit(state: &mut LuaState, limit: usize) -> (r: core::result::Result<(), MluaError>)
    ensures
        r is Ok,
        final(state)@ == (old(state)@.0, Some(limit)),
{
    state.lua.set_memory_limit(limit)?;
    state.memory_limit = Some(limit);
    Ok(())
}

} // verus!
