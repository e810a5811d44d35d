[package]
name = "git_glob"
version = "0.1.0"
edition = "2021"
publish = false

[dependencies]
serde = { version = "*", features = ["derive"] }
nix = { version = "*", features = ["term"] }
parking_lot = "*"
