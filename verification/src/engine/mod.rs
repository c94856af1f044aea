//! The engine's policies, build checks and documentation helpers.

pub mod engine_template;
pub mod gen_doc;
pub mod handler_doc;
pub mod lua_path;
pub mod native_fns;
pub mod script_engine;

pub use script_engine::{
    validate_runtime_policy, EngineBuildError, LuaExecutionLimits, LuaRuntimePolicy, LuaStdLib, LuaStdLibPolicy,
};
