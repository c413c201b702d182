[package]
name = "astra_core"
version = "0.1.0"
edition = "2021"
publish = false

[dependencies]
sha2 = "*"
serde = { version = "*", features = ["derive"] }
serde_json = "*"
toml = "*"
walkdir = "*"
ssh2 = "*"
tokio = { version = "*", features = ["rt-multi-thread", "sync", "macros", "time"] }
