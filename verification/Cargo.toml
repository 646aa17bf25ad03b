[package]
name = "this_me"
version = "0.1.0"
edition = "2021"
publish = false

[dependencies]
sha2 = "0.10"
base64 = "0.22"
chacha20poly1305 = "0.10"
ed25519-dalek = "2"
rand = "0.8"
serde_json = "1"
chrono = "0.4"
serde = { version = "1", features = ["derive"] }
rusqlite = { version = "0.31", features = ["bundled"] }
clap = { version = "4", features = ["derive"] }
dirs = "5"
