[package]
name = "chunk_fetch"
version = "0.1.0"
edition = "2021"
publish = false

[dependencies]
sha256 = { version = "=1.6.0", default-features = false }
tokio = { version = "=1.54.1", features = ["net", "io-util", "rt-multi-thread", "time"] }
