[package]
name = "mavlog"
version = "0.1.0"
edition = "2021"
publish = false

[dependencies]
anyhow = "1"
chrono = "=0.4.45"
eframe = { version = "0.35", default-features = false, features = ["default_fonts", "glow", "x11"] }
egui_extras = "0.35"
egui_plot = "0.36"
image = { version = "0.25", default-features = false, features = ["png"] }
mavlink = { version = "=0.21.0", default-features = false, features = ["std", "serde", "dialect-ardupilotmega"] }
rfd = "0.17"
serde = { version = "1", features = ["derive"] }
serde_json = "=1.0.154"
