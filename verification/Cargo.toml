[package]
name = "yyw"
version = "0.1.0"
edition = "2021"
publish = false

[dependencies]
serde = { version = "1", features = ["derive"] }
serde_json = "1"
walkdir = "2"
clap = { version = "4", default-features = false, features = ["std", "derive", "help", "usage", "error-context"] }
env_logger = { version = "0.11", default-features = false }
eframe = { version = "0.31", default-features = false, features = ["default_fonts", "glow", "x11"] }
egui_extras = { version = "0.31", default-features = false }
image = { version = "0.25", default-features = false, features = ["png", "jpeg"] }
