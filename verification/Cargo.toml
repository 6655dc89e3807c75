[package]
name = "rustbb"
version = "0.1.0"
edition = "2021"
publish = false

[dependencies]
syn = { version = "=2.0.119", features = ["full", "visit-mut"] }
quote = "=1.0.47"
proc-macro2 = "=1.0.107"
prettyplease = "=0.2.37"
cargo_toml = "=0.22.3"
clap = { version = "=4.6.7", features = ["derive"] }
tempfile = "=3.27.0"
dirs = "=7.0.0"
tracing-subscriber = "=0.3.23"
anyhow = "=1.0.104"
regex = "=1.13.1"
