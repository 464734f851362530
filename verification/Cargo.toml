[package]
name = "qz"
version = "0.1.0"
edition = "2021"
publish = false

[dependencies]
bevy = { version = "=0.14.2", default-features = false }
bevy_turborand = "=0.9.0"
petgraph = "=0.6.5"
rand = "=0.8.8"
random_word = { version = "=0.4.3", features = ["en"] }
serde = { version = "=1.0.229", features = ["derive"] }
thiserror = "=1.0.69"
