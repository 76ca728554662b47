[package]
name = "gwyh"
version = "0.1.0"
edition = "2021"
publish = false

[dependencies]
chrono = { version = "=0.4.45", features = ["serde"] }
dryoc = { version = "=2.0.0", features = ["serde"] }
futures = "=0.3.34"
lazy_static = "=1.5.1"
lru = "=0.7.8"
rand = "=0.8.8"
rand_chacha = "=0.3.1"
rmp-serde = "=1.3.1"
serde = { version = "=1.0.229", features = ["derive"] }
tokio = { version = "=1.54.1", features = ["full"] }
tracing = "=0.1.44"
uuid = { version = "=1.29.0", features = ["v4", "serde"] }
