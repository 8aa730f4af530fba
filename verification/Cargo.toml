[package]
name = "onenote_linux"
version = "0.1.0"
edition = "2021"
publish = false

[dependencies]
anyhow = "1"
eframe = { version = "*", default-features = false, features = ["default_fonts", "glow", "wayland", "x11"] }
egui_extras = { version = "*", default-features = false }
keyring = "3"
mime_guess = "2"
percent-encoding = "2"
rfd = "*"
sanitize-filename = "*"
serde = { version = "1", features = ["derive"] }
serde_json = "1"
ureq = { version = "3", features = ["platform-verifier"] }

[dev-dependencies]
tempfile = "3"
