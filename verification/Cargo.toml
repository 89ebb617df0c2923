[package]
name = "rust_tuyapi"
version = "0.1.0"
edition = "2021"
publish = false

[dependencies]
base64 = "0.21"
crc32fast = "1"
hex = "0.4"
log = "0.4"
md5 = "0.7"
openssl = "0.10"
serde = { version = "1", features = ["derive"] }
serde_json = "1"
thiserror = "1"
