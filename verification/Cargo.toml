[package]
name = "commipcrs"
version = "0.1.0"
edition = "2021"
publish = false

[dependencies]
pbkdf2 = { version = "=0.12.2", features = ["hmac", "sha2"] }
sha2 = "=0.10.9"
hex = "=0.4.3"
uuid = { version = "=1.29.0", features = ["v4"] }
serde = { version = "=1.0.229", features = ["derive"] }
serde_json = "=1.0.154"
rmp-serde = "=1.3.1"
tokio = { version = "=1.54.1", features = ["full"] }
async-trait = "=0.1.92"
log = "=0.4.35"
