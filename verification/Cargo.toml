[package]
name = "sway-easyfocus"
version = "0.1.0"
edition = "2021"
publish = false

[dependencies]
clap = { version = "4", features = ["derive"] }
figment = { version = "0.10", features = ["yaml"] }
gtk4 = "*"
gtk4-layer-shell = "*"
serde = { version = "1", features = ["derive"] }
swayipc = "3"
xdg = "2"

[dev-dependencies]
serde_json = "1"
