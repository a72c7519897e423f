[package]
name = "distributed_cache"
version = "0.1.0"
edition = "2021"
publish = false

[dependencies]
dashmap = "6"
nom = "8"
rand = { version = "0.9", features = ["small_rng"] }
serde = { version = "1", features = ["derive"] }
sha2 = "0.10"
tokio = { version = "1", features = ["full"] }
tracing = "0.1"
tracing-subscriber = "0.3"
