[package]
name = "zed_context_cleaner"
version = "0.3.1"
edition = "2021"
publish = false

[dependencies]
anyhow = "1"
chrono = { version = "0.4", default-features = false, features = ["clock"] }
dirs = "5"
eframe = { version = "0.24", default-features = false, features = ["default_fonts", "glow", "x11"] }
egui = { version = "0.24", default-features = false }
env_logger = { version = "0.11", default-features = false }
log = "0.4"
rfd = { version = "0.12", default-features = false, features = ["xdg-portal"] }
rusqlite = { version = "0.31", features = ["bundled"] }
serde = { version = "1", features = ["derive"] }
serde_json = "1"
zstd = "0.13"
