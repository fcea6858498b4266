[package]
name = "helium_api"
version = "0.1.0"
edition = "2021"
publish = false

[dependencies]
serialport = { version = "4", default-features = false }
chrono = "0.4"
eframe = { version = "0.31", default-features = false, features = ["default_fonts", "glow", "x11", "wayland"] }
egui = "0.31"
egui_plot = "0.32"
egui_extras = "0.31"
image = { version = "0.25", default-features = false, features = ["png"] }
env_logger = "0.11"
