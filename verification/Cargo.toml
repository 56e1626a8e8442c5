[package]
name = "bevy_granite"
version = "0.1.0"
edition = "2021"
publish = false

[dependencies]
ron = "*"
serde = { version = "1", features = ["derive"] }
toml = "*"
uuid = { version = "1", features = ["serde"] }
lazy_static = "1"
bevy = { version = "0.17", default-features = false, features = ["bevy_asset"] }
bevy_egui = { version = "0.37", default-features = false }
