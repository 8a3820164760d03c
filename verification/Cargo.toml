[package]
name = "space_keys"
version = "0.1.0"
edition = "2021"
publish = false

[dependencies]
blake3 = { version = "1", features = ["pure"] }
chacha20poly1305 = "0.10"
iroh-base = { version = "0.28", features = ["key"] }
rand_chacha = "0.3"
tokio = { version = "1", features = ["fs", "io-util", "sync"] }
