[package]
name = "tower_defense"
version = "0.1.0"
edition = "2021"
publish = false

[dependencies]
bevy = { version = "=0.10.1", default-features = false, features = ["bevy_asset", "bevy_scene", "bevy_winit", "bevy_core_pipeline", "bevy_pbr", "bevy_gltf", "bevy_render", "png", "x11"] }
bevy_prototype_debug_lines = { version = "0.10", features = ["3d"] }
bevy_rapier3d = "0.21"
derivative = "=2.2.0"
