[package]
name = "openvm_native"
version = "0.1.0"
edition = "2021"
publish = false

[dependencies]
openvm-stark-backend = "*"
openvm-stark-sdk = "*"
serde = { version = "1", features = ["derive"] }
proc-macro2 = "1"

[dev-dependencies]
rand = "0.8"
