[package]
name = "gshell"
version = "0.1.0"
edition = "2021"
publish = false

[dependencies]
anyhow = "*"
nix = { version = "*", features = ["signal", "process", "term", "fs"] }
nu-ansi-term = "*"
reedline = "*"
tokio = { version = "*", features = ["full"] }
tracing-subscriber = { version = "*", features = ["env-filter"] }
