[package]
name = "laybacker"
version = "0.1.0"
edition = "2021"
publish = false

[dependencies]
strsim = "0.11"
base64 = "0.22"
serde = { version = "1", features = ["derive"] }
serde_json = "1"
uuid = { version = "1", features = ["v4"] }
walkdir = "2"
log = "0.4"
