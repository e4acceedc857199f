[package]
name = "piramid"
version = "0.1.0"
edition = "2021"
publish = false

[dependencies]
uuid = { version = "1", features = ["v4"] }
serde = { version = "1", features = ["derive"] }
serde_json = "1"
bincode = "1"
memmap2 = "0.9"
libc = "0.2"
axum = "0.8"
tokio = { version = "1", features = ["rt-multi-thread", "macros", "sync"] }
tower-http = { version = "0.6", features = ["cors", "fs", "trace", "compression-gzip", "set-header"] }
tracing = "0.1"
dashmap = "6"
parking_lot = "0.12"
rayon = "1"
