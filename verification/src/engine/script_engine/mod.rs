//! Runtime policy of the script engine and its build checks.

pub mod error;
pub mod lua_runtime_policy;
pub mod lua_state;

pub use error::EngineBuildError;
pub use lua_runtime_policy::{
    validate_runtime_policy, LuaExecutionLimits, LuaRuntimePolicy, LuaStdLib, LuaStdLibPolicy,
};
