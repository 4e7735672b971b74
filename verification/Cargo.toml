[package]
name = "benilla_app"
version = "0.1.0"
edition = "2021"
publish = false

[dependencies]
bevy = { version = "=0.18.1", default-features = false, features = ["std", "touch", "bevy_window", "bevy_ui", "ui_picking"] }
mlua = { version = "=0.12.2", features = ["lua51", "vendored"] }
