[package]
name = "socket_io_emitter"
version = "0.1.0"
edition = "2021"
publish = false

[dependencies]
redis = { version = "*", default-features = false }

[dev-dependencies]
rmp-serde = "*"
serde = "*"
