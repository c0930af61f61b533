[package]
name = "sm_action"
version = "0.1.0"
edition = "2021"
publish = false

[dependencies]
uuid = { version = "1", features = ["v4"] }
anyhow = "1"
tokio = { version = "1", features = ["macros", "rt-multi-thread"] }
bitwarden-core = { version = "*", features = ["secrets"] }
bitwarden-sm = "*"
