[package]
name = "ashell"
version = "0.1.0"
edition = "2021"
publish = false

[dependencies]
serde = { version = "=1.0.229", features = ["derive"] }
serde_json = "=1.0.154"
swayipc-types = "=2.0.3"
niri-ipc = "=26.4.0"
chrono = "=0.4.45"
chrono-tz = "=0.10.4"
shellexpand = "=3.1.2"
freedesktop-icons = "=0.4.0"
linicon-theme = "=1.2.0"
hyprland = "*"
