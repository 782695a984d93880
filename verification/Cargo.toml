[package]
name = "poc"
version = "0.1.0"
edition = "2021"
publish = false

[dependencies]
anyhow = "*"
async-trait = "*"
base64 = "*"
chrono = "*"
hex = "*"
iota-conversion = "*"
iota-crypto = { version = "*", features = ["blake2b"] }
rand = "*"
serde = { version = "*", features = ["derive"] }
serde_json = "*"
tokio = { version = "*", features = ["rt", "macros", "time"] }
