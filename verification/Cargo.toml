[package]
name = "cornice"
version = "0.1.0"
edition = "2021"
publish = false

[dependencies]
chrono = "*"
calloop = "*"
calloop-wayland-source = "*"
cosmic-text = "*"
serde = { version = "*", features = ["derive"] }
smithay-client-toolkit = "*"
toml = "*"
wayland-client = "*"
zbus = "*"
