[package]
name = "envctl_secrets"
version = "0.1.0"
edition = "2021"
publish = false

[dependencies]
anyhow = "1"
argon2 = "0.5"
async-trait = "0.1"
blake3 = { version = "1", features = ["pure"] }
chacha20poly1305 = "0.10"
chrono = { version = "0.4", default-features = false, features = ["clock", "std"] }
clap = { version = "4", features = ["derive"] }
getrandom = "0.2"
hkdf = "0.12"
libsql = { version = "0.9", default-features = false, features = ["remote"] }
rustix = { version = "1", features = ["process"] }
serde = { version = "1", features = ["derive"] }
serde_json = "1"
sha2 = "0.10"
subtle = "2"
tokio = { version = "1", features = ["rt", "net", "time"] }
zeroize = "1"
