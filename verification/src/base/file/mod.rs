//! File selection: exclude globs, content matching and listing statistics.

pub mod exclude;
pub mod lister;
pub mod matcher;
