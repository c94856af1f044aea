//! Helpers of the Lua value accessors.

pub mod lua_ext;
