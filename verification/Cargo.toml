[package]
name = "aiprog"
version = "0.1.0"
edition = "2021"
publish = false

[dependencies]
aho-corasick = "1"
jsonc-parser = { version = "*", features = ["serde"] }
mlua = { version = "*", features = ["lua54", "vendored", "async", "serialize", "send"] }
regex = "1"
schemars = "1"
serde = { version = "1", features = ["derive"] }
serde_json = "1"
simple-fs = "*"
time = { version = "0.3", features = ["formatting", "parsing", "macros", "local-offset"] }
tokio = { version = "1", features = ["full"] }
