//! Verified core of the aiprog script engine: text utilities, script error
//! details, runtime policies and documentation helpers.

pub mod base;
pub mod engine;
pub mod error;
pub mod error_lua_details;
pub mod lua_exts;
pub mod support;
pub mod test_support;

pub use error::{Error, Result};
pub use error_lua_details::LuaErrorDetails;
pub use engine::{
    validate_runtime_policy, EngineBuildError, LuaExecutionLimits, LuaRuntimePolicy, LuaStdLib, LuaStdLibPolicy,
};
