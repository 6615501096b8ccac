[package]
name = "pose_markers"
version = "0.1.0"
edition = "2021"
publish = false

[dependencies]
bevy = { version = "=0.17.3", default-features = false, features = ["std", "bevy_asset", "bevy_camera", "bevy_color", "bevy_core_pipeline", "bevy_log", "bevy_mesh", "bevy_render", "bevy_sprite_render", "bevy_window", "bevy_winit", "x11"] }
serde = { version = "=1.0.229", features = ["derive"] }
serde_cbor = "=0.11.2"
