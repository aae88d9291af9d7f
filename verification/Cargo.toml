[package]
name = "pdfcompressor"
version = "0.1.0"
edition = "2021"
publish = false

[dependencies]
lopdf = "*"
image = "0.24"
flate2 = "*"
ahash = "*"
rayon = "*"
log = "*"
env_logger = { version = "*", default-features = false, features = ["humantime"] }
axum = { version = "0.7", features = ["multipart"] }
tokio = { version = "1", features = ["full"] }
tower-http = { version = "0.5", features = ["cors"] }
serde = { version = "1", features = ["derive"] }
infer = "*"
num_cpus = "*"
eframe = { version = "*", default-features = false, features = ["default_fonts", "glow", "x11"] }
egui = { version = "*", default-features = false }
