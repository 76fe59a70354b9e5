[package]
name = "blazecache"
version = "0.1.0"
edition = "2021"
publish = false

[dependencies]
lru = "*"
lz4_flex = "*"
fnv = "*"
chrono = "*"
fastrand = "*"
num_cpus = "*"
base64 = "*"
serde = { version = "1", features = ["derive"] }
serde_json = "1"
ciborium = "*"
toml = "*"
tokio = { version = "1", features = ["full"] }
tracing = "*"
tracing-subscriber = "*"
parking_lot = "*"
bytes = "*"
