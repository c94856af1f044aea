//! Base utilities shared by the engine.

pub mod chars;
pub mod file;
pub mod jsons;
pub mod lines;
pub mod md;
pub mod number_text;
pub mod order;
pub mod pairs;
pub mod split;
pub mod text;
pub mod time_impl;
