[package]
name = "ambitious"
version = "0.1.0"
edition = "2021"
publish = false

[dependencies]
async-trait = "0.1"
dashmap = "6"
edp_client = "*"
erltf = "*"
erltf_serde = "*"
futures = "0.3"
linkme = "0.3"
parking_lot = "0.12"
postcard = { version = "1", features = ["alloc"] }
serde = { version = "1", features = ["derive"] }
serde_json = "1"
thiserror = "2"
tokio = { version = "1", features = ["rt", "rt-multi-thread", "net", "sync", "time", "io-util", "macros"] }
tokio-tungstenite = "*"
tracing = "0.1"
