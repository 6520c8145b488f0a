[package]
name = "mini_signal"
version = "0.1.0"
edition = "2021"
publish = false

[dependencies]
x25519-dalek = { version = "2", features = ["static_secrets"] }
ed25519-dalek = "2"
hkdf = "0.12"
hmac = "0.12"
sha2 = "0.10"
chacha20poly1305 = "0.10"
rand_core = { version = "0.6", features = ["getrandom"] }
argon2 = "0.5"
serde = { version = "1", features = ["derive"] }
serde_json = "1"
rusqlite = { version = "0.31", features = ["bundled"] }
tokio = { version = "1", features = ["full"] }
warp = { version = "0.3", features = ["tls"] }
reqwest = { version = "0.11", features = ["json"] }
bytes = "1"
once_cell = "1"
lazy_static = "1"
