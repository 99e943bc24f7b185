[package]
name = "folder_fuser"
version = "0.1.0"
edition = "2021"
publish = false

[dependencies]
chrono = { version = "0.4", default-features = false, features = ["clock", "std"] }
eframe = { version = "0.20", default-features = false, features = ["default_fonts", "glow"] }
egui = "0.20"
image = "0.24"
