[package]
name = "ergo_observer"
version = "0.1.0"
edition = "2021"
publish = false

[dependencies]
egui = "0.33"
eframe = { version = "0.33", default-features = false, features = ["default_fonts", "glow", "x11"] }
egui_extras = { version = "0.33", default-features = false }
ewebsock = { version = "0.8", default-features = false }
serde = { version = "1", features = ["derive"] }
serde_json = "1"
log = "0.4"
chrono = { version = "0.4", default-features = false, features = ["clock"] }
env_logger = { version = "0.11", default-features = false }
