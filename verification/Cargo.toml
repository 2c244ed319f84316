[package]
name = "bfn"
version = "0.1.0"
edition = "2021"
publish = false

[dependencies]
base64 = "=0.22.1"
chrono = { version = "=0.4.45", default-features = false }
md5 = "=0.7.0"
pgrx = "0.16"
rand = "=0.9.5"
serde_json = "=1.0.154"
uuid = { version = "=1.29.0", features = ["v7"] }

[dev-dependencies]
regex = "=1.13.1"
