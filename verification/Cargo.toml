[package]
name = "rs_detect_language"
version = "0.1.0"
edition = "2021"
publish = false

[dependencies]
lingua = { version = "*", default-features = false, features = ["english"] }
clap = { version = "*", features = ["derive"] }

[dev-dependencies]
serde_json = "*"
