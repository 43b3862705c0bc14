[package]
name = "abtestbed"
version = "0.1.0"
edition = "2021"
publish = false

[dependencies]
bevy = { version = "0.15", default-features = false, features = ["bevy_window", "bevy_sprite", "bevy_core_pipeline", "bevy_render"] }
bevy_rapier2d = "0.28"
uuid = { version = "1", features = ["v4"] }
