[package]
name = "highgarden"
version = "0.1.0"
edition = "2021"
publish = false

[dependencies]
sha2 = "=0.10.9"
md5 = "=0.7.0"
hex = "=0.4.3"
uuid = { version = "=1.27.0", features = ["v4"] }
serde = { version = "=1.0.229", features = ["derive"] }
serde_json = "=1.0.151"
tokio = { version = "=1.53.2", features = ["rt", "rt-multi-thread", "macros", "fs", "io-util", "sync", "time"] }
reqwest = { version = "=0.12.28", default-features = false, features = ["stream", "json"] }
futures-util = "=0.3.34"
