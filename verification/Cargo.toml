[package]
name = "authcore"
version = "0.1.0"
edition = "2021"
publish = false

[dependencies]
simple_crypt = "*"
anyhow = "*"
tokio = { version = "*", default-features = false, features = ["sync"] }

[dev-dependencies]
rustc-serialize = "*"
