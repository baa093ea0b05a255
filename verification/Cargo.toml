[package]
name = "gantt_engine"
version = "0.1.0"
edition = "2021"
publish = false

[dependencies]
chrono = "0.4"
serde_json = "1"
egui = "0.29"
eframe = { version = "0.29", default-features = false, features = ["glow", "x11", "default_fonts"] }
egui_plot = "0.29"
