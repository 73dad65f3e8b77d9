[package]
name = "qwen_studio"
version = "2.2.3"
edition = "2021"
publish = false

[dependencies]
anyhow = "1"
dirs = "*"
image = { version = "0.25", default-features = false, features = ["png"] }
log = "0.4"
open = "5"
serde = { version = "1", features = ["derive"] }
serde_json = "1"
tokio = { version = "1", features = ["io-util", "macros", "process", "rt", "sync", "time"] }
