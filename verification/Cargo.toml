[package]
name = "closed_prefix"
version = "0.1.0"
edition = "2021"
publish = false

[dependencies]
async-trait = "0.1"
http = "1"
hyper = "1"
matchit = "=0.9.2"
s3s = "0.14"
serde = { version = "1", features = ["derive"] }
serde_json = "1"
sha2 = "=0.10.9"
tokio = { version = "1", features = ["io-util"] }
uuid = { version = "=1.29.0", features = ["serde"] }
