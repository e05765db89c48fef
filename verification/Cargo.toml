[package]
name = "ixc_schema"
version = "0.1.0"
edition = "2021"
publish = false

[dependencies]
base64 = "=0.22.1"
blake2 = "0.10"
imbl = "=7.0.2"
proc-macro2 = "1"
quick_cache = "=0.7.0"
quote = "1"
serde_json = "=1.0.154"
sled = "=0.34.7"
syn = { version = "2", features = ["full"] }
thiserror = "=2.0.21"
