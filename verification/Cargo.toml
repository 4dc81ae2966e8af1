[package]
name = "google_dork_builder"
version = "0.1.0"
edition = "2021"
publish = false

[dependencies]
serde = "=1.0.229"
serde_json = "=1.0.151"
urlencoding = "=2.1.3"
copypasta = { version = "=0.10.2", default-features = false, features = ["x11"] }
open = "=5.4.4"
eframe = { version = "=0.36.2", default-features = false, features = ["glow", "x11", "default_fonts"] }
