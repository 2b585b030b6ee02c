[package]
name = "lazy_filer"
version = "0.1.0"
edition = "2021"
publish = false

[dependencies]
futures = "0.3"
nix = { version = "0.31", features = ["user"] }
nvim-rs = { version = "0.9", features = ["use_tokio"] }
tokio = { version = "1", features = ["full"] }
