[package]
name = "event_sync"
version = "0.1.0"
edition = "2021"
publish = false

[dependencies]
reqwest = { version = "=0.13.5", default-features = false, features = ["blocking"] }
base64 = "=0.23.1"
flate2 = "=1.1.10"
md5 = "=0.8.1"
qrcode-generator = { version = "=6.1.2", default-features = false, features = ["qr", "std"] }
