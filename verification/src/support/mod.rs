//! Calls into outside crates, each with the contract the library relies on.

pub mod lua_api;
pub mod regex_api;
