[package]
name = "oreno_quic"
version = "0.1.0"
edition = "2021"
publish = false

[dependencies]
bytes = "1"
rand = "0.8"
rcgen = "0.12"
ring = "0.17"
rustls = "0.21"
tokio = { version = "1", features = ["net", "rt-multi-thread", "macros", "time"] }
