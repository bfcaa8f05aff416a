[package]
name = "cargo_contribute"
version = "0.1.0"
edition = "2021"
publish = false

[dependencies]
semver = "*"
rand = "*"
toml = "*"
serde = { version = "*", features = ["derive"] }
serde_json = "*"
clap = "*"
glob = "*"
log = "*"
ureq = { version = "*", default-features = false }
strfmt = "*"
