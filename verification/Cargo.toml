[package]
name = "storage_cleaner"
version = "0.1.0"
edition = "2021"
publish = false

[dependencies]
chrono = { version = "0.4", default-features = false, features = ["clock", "std"] }
reqwest = { version = "0.12", default-features = false, features = ["blocking", "json", "rustls-tls"] }
serde = { version = "1", features = ["derive"] }
serde_json = "1"
jwalk = "0.8"
eframe = { version = "0.29", default-features = false, features = ["default_fonts", "glow", "x11"] }
interprocess = "2"
windows-service = "0.7"
