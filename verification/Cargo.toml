[package]
name = "polycrypt_rs"
version = "0.1.0"
edition = "2021"
publish = false

[dependencies]
aes = "0.8"
base64 = "0.13"
cbc = "0.1"
chrono = { version = "0.4", default-features = false, features = ["clock"] }
cipher = { version = "0.4", features = ["block-padding"] }
log = "0.4"
rand = "0.8"
serde_json = "1"
thiserror = "1"
