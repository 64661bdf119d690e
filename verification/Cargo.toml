[package]
name = "basscript_core"
version = "0.1.0"
edition = "2021"
publish = false

[dependencies]
bevy = { version = "=0.18.1", default-features = false, features = ["bevy_ui", "bevy_text", "bevy_window", "bevy_asset", "bevy_log", "async_executor", "multi_threaded", "std"] }
