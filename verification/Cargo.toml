[package]
name = "clippy_lint_tester"
version = "0.1.0"
edition = "2021"
publish = false

[dependencies]
anyhow = "1"
argh = "0.1"
atty = "0.2"
cargo_metadata = "0.14"
filetime = "0.2"
flate2 = "1"
proc-macro2 = { version = "1", features = ["span-locations"] }
serde = { version = "1", features = ["derive"] }
shell-escape = "0.1"
syn = { version = "1", features = ["full", "visit", "extra-traits"] }
tar = "0.4"
toml = "0.5"
unicode-segmentation = "1"
ureq = { version = "2", features = ["json"] }
walkdir = "2"
