[package]
name = "deltalake_core"
version = "0.1.0"
edition = "2021"
publish = false

[dependencies]
delta_kernel = { version = "=0.30.1", default-features = false }
serde_json = "=1.0.154"
uuid = { version = "=1.29.0", features = ["v4"] }
arrow-schema = "=60.1.0"
arrow-array = { version = "=60.1.0", default-features = false }
