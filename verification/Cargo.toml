[package]
name = "lightsaber"
version = "0.1.0"
edition = "2021"
publish = false

[dependencies]
bevy = { version = "=0.17.3", default-features = false, features = ["bevy_ui", "bevy_sprite", "bevy_text", "bevy_state", "bevy_window", "bevy_asset", "default_font"] }
