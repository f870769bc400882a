[package]
name = "te"
version = "0.1.0"
edition = "2021"
publish = false

[dependencies]
unicode-width = "=0.2.3"
ureq = { version = "=2.12.1", features = ["json"] }
serde = { version = "=1.0.229", features = ["derive"] }
serde_json = "=1.0.154"
tokio = { version = "=1.54.1", features = ["rt-multi-thread", "macros", "fs", "io-util", "sync"] }
tokio-util = "=0.7.20"
lru = "=0.12.5"
parking_lot = "=0.12.5"
dotenvy = "=0.15.7"
base64 = "=0.22.1"
