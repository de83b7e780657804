[package]
name = "spatial_maker"
version = "0.1.0"
edition = "2021"
publish = false

[dependencies]
serde_json = "1"
serde = { version = "1", features = ["derive"] }
image = "*"
tokio = { version = "1", features = ["rt", "rt-multi-thread", "process", "io-util", "sync", "macros", "fs", "time"] }
dirs = "*"
