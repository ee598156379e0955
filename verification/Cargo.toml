[package]
name = "omthub"
version = "0.1.0"
edition = "2021"
publish = false

[dependencies]
argon2 = { version = "=0.5.3", features = ["std"] }
ulid = "=1.2.1"
time = "=0.3.55"
