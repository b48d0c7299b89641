[package]
name = "localhost"
version = "0.1.0"
edition = "2021"
publish = false

[dependencies]
mio = { version = "0.8", features = ["os-poll", "net"] }
rand = "0.8"
serde = { version = "1", features = ["derive"] }
serde_json = "1"
