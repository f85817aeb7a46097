[package]
name = "orbitmail"
version = "0.1.0"
edition = "2021"
publish = false

[dependencies]
chrono = "0.4"
imap = "2"
native-tls = "0.2"
mailparse = "*"
rusqlite = "*"
serde = { version = "1", features = ["derive"] }
serde_json = "1"
tokio = { version = "1", features = ["rt-multi-thread", "sync", "time", "macros"] }
log = "0.4"
