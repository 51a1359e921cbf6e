[package]
name = "remailable"
version = "0.1.0"
edition = "2021"
publish = false

[dependencies]
base64 = "0.22"
regex = "1"
uuid = { version = "1", features = ["v4"] }
serde = { version = "1", features = ["derive"] }
serde_json = "1"
rusqlite = { version = "0.31", features = ["bundled"] }
imap = "2.4"
native-tls = "0.2"
lettre = "0.11"
uds = "0.4"
dirs = "5"
