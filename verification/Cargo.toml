[package]
name = "cargo_danger"
version = "0.1.0"
edition = "2021"
publish = false
rust-version = "1.95"

[dependencies]
cargo = "=0.96.0"
cargo-credential-libsecret = "=0.5.6"
cargo-credential-macos-keychain = "=0.4.21"
cargo-credential-wincred = "=0.4.21"
cargo-platform = "=0.3.3"
cargo-util = "=0.2.28"
kstring = "=2.0.2"
syn = { version = "=0.15.44", features = ["full"] }
