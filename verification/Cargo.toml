[package]
name = "diagram"
version = "0.1.0"
edition = "2021"
publish = false

[dependencies]
eframe = { version = "=0.32.3", default-features = false, features = ["default_fonts", "glow", "persistence", "x11"] }
egui = "=0.32.3"
egui_extras = "=0.32.3"
egui-probe = "=0.9.1"
egui-snarl = { version = "=0.8.0", features = ["serde", "egui-probe"] }
serde = { version = "=1.0.229", features = ["derive"] }
serde_json = "=1.0.154"
