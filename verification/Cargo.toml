[package]
name = "stream_multiplexor"
version = "0.1.0"
edition = "2021"
publish = false

[dependencies]
async-channel = "=1.9.0"
bincode = "=1.3.3"
bytes = { version = "=1.12.1", features = ["serde"] }
futures = "=0.3.34"
futures-util = { version = "=0.3.34", features = ["sink"] }
rand = "=0.8.8"
serde = "=1.0.229"
tokio = { version = "=1.54.1", features = ["io-util", "macros", "rt", "rt-multi-thread", "sync"] }
tokio-util = { version = "=0.7.20", features = ["codec"] }
tracing = "=0.1.44"
