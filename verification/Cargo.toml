[package]
name = "file_reservations"
version = "0.1.0"
edition = "2021"
publish = false

[dependencies]
fs2 = "=0.4.3"
hex = "=0.4.3"
serde = { version = "=1.0.229", features = ["derive"] }
serde_json = "=1.0.154"
sha2 = "=0.10.9"
smallvec = "=1.16.4"
tracing = "=0.1.44"
