//! A local HTTP test server's request parsing, response framing and
//! configuration.

pub mod web_tester;
