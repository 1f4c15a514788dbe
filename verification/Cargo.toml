[package]
name = "bevy_game"
version = "0.1.0"
edition = "2021"
publish = false

[dependencies]
bevy = { version = "0.16", default-features = false, features = ["bevy_ui", "bevy_text", "bevy_pbr", "bevy_state", "bevy_window", "bevy_core_pipeline", "bevy_render"] }
log = "0.4"
webbrowser = "1"
