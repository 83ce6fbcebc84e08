[package]
name = "bevy_ggrs"
version = "0.1.0"
edition = "2021"
publish = false

[dependencies]
bevy = { version = "=0.18.1", default-features = false, features = ["std"] }
ggrs = { version = "=0.11.1", features = ["sync-send"] }
seahash = "=4.1.0"
serde = { version = "=1.0.229", features = ["derive"] }
instant = "=0.1.13"
