[package]
name = "grid_game"
version = "0.1.0"
edition = "2021"
publish = false

[dependencies]
hex2d = "1"
rand = "0.8"
nonmax = "0.5"
eframe = { version = "0.24", default-features = false, features = ["glow", "default_fonts"] }
egui = "0.24"
