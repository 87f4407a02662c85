[package]
name = "cys_app"
version = "0.1.0"
edition = "2021"
publish = false

[dependencies]
base64 = "0.22"
serde_json = "1"
serde = { version = "1", features = ["derive"] }
libc = "0.2"
tokio = { version = "1", features = ["rt", "rt-multi-thread", "net", "io-util", "time", "macros", "sync", "process"] }
