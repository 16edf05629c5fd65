[package]
name = "rust_chat"
version = "0.1.0"
edition = "2021"
publish = false

[dependencies]
mio = { version = "0.8", features = ["os-poll", "net"] }
ctrlc = "3"

[dev-dependencies]
serde_json = "1"
