[package]
name = "overcast"
version = "0.1.0"
edition = "2021"
publish = false

[dependencies]
ahash = "0.8"
base64 = "0.22"
anyhow = "1"
bincode = "1"
crossbeam-channel = "0.5"
heapless = "0.8"
libc = "0.2"
serde = { version = "1", features = ["derive"] }
serde_json = "1"
signal-hook = "0.3"
tokio = { version = "1", features = ["rt", "rt-multi-thread", "sync", "time", "macros"] }
tokio-stream = "0.1"
tokio-util = { version = "0.7", features = ["time"] }
warp = "0.3"
