[package]
name = "minebuffer"
version = "0.1.0"
edition = "2021"
publish = false

[dependencies]
uuid = "1"
napi = { version = "2", features = ["napi6"] }
napi-derive = "2"
serde_json = "1"
