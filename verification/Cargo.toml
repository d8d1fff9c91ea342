[package]
name = "roextract"
version = "1.0.1"
edition = "2021"
publish = false

[dependencies]
serde_json = "=1.0.154"
serde = { version = "=1.0.229", features = ["derive"] }
fluent-bundle = "=0.15.3"
intl-memoizer = "=0.5.3"
unic-langid = "=0.9.6"
sys-locale = "=0.3.2"
whoami = { version = "=1.6.1", default-features = false }
chrono = { version = "=0.4.45", default-features = false, features = ["now", "std"] }
tempfile = "=3.27.0"
clap = { version = "=4.6.7", default-features = false, features = ["std", "derive", "help", "usage", "error-context"] }
reqwest = { version = "=0.12.28", default-features = false, features = ["blocking", "rustls-tls"] }
open = "=5.4.5"
image = { version = "=0.25.10", default-features = false, features = ["png", "webp"] }
eframe = { version = "=0.31.1", default-features = false, features = ["default_fonts", "glow", "x11"] }
egui = "=0.31.1"
egui_dock = "=0.16.0"
egui_commonmark = { version = "=0.20.0", default-features = false, features = ["pulldown_cmark"] }
