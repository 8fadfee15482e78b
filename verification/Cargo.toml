[package]
name = "vti"
version = "0.1.0"
edition = "2021"
publish = false

[dependencies]
anyhow = "1"
cpal = "0.15"
log = "0.4"
serde = { version = "1", features = ["derive"] }
serde-big-array = "0.5"
