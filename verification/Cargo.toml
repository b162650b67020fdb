[package]
name = "beaver_builds"
version = "0.1.0"
edition = "2021"
publish = false

[dependencies]
async-channel = "=2.5.0"

[dependencies.bevy]
version = "=0.19.1"
default-features = false
features = [
    "std",
    "async_executor",
    "bevy_asset",
    "bevy_log",
    "bevy_state",
    "bevy_color",
    "bevy_scene",
    "bevy_camera",
    "bevy_light",
    "bevy_mesh",
    "bevy_ui",
    "bevy_ui_widgets",
    "bevy_text",
    "bevy_window",
    "bevy_picking",
    "ui_picking",
    "default_font",
]
