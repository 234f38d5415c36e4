[package]
name = "mesh_crypto"
version = "0.4.0"
edition = "2021"
publish = false

[dependencies]
anyhow = "1"
base64 = "0.22"
blake2 = "0.10"
chacha20poly1305 = "0.10"
clap = { version = "4", features = ["derive"] }
dirs = "5"
ed25519-dalek = "2"
hex = "0.4"
hkdf = "0.12"
hmac = "0.12"
rand = "0.8"
reqwest = { version = "0.12", default-features = false, features = ["json", "rustls-tls"] }
serde = { version = "1", features = ["derive"] }
serde_json = "1"
sha2 = "0.10"
tokio = { version = "1", features = ["macros", "rt-multi-thread"] }
x25519-dalek = { version = "2", features = ["static_secrets"] }
zeroize = "1"
