[package]
name = "roadtoriches"
version = "0.1.0"
edition = "2021"
publish = false

[dependencies]
serde = { version = "1", features = ["derive"] }
serde_json = "1"
csv = "1"
dirs = "5"
self_update = { version = "0.41", default-features = false, features = ["rustls"] }
egui = "0.29"
