[package]
name = "markup_explorer"
version = "0.1.0"
edition = "2021"
publish = false

[dependencies]
soup = "*"
reqwest = { version = "*", default-features = false }
tokio = { version = "*", features = ["macros", "rt-multi-thread"] }
rustyline = "*"
dirs = "*"
