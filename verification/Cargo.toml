[package]
name = "bevy_ase"
version = "0.1.0"
edition = "2021"
publish = false

[dependencies]
anyhow = "1"
asefile = "0.3"
bevy = { version = "0.10", default-features = false, features = ["bevy_asset", "bevy_render", "bevy_sprite", "bevy_core_pipeline"] }
