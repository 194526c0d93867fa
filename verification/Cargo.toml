[package]
name = "whisper_git"
version = "0.1.0"
edition = "2021"
publish = false

[dependencies]
anyhow = "1"
git2 = { version = "*", default-features = false }
image = { version = "0.25", default-features = false, features = ["png", "jpeg"] }
md5 = "*"
serde = { version = "1", features = ["derive"] }
serde_json = "1"
ureq = { version = "*", default-features = false, features = ["rustls"] }
winit = { version = "*" }
damascene-core = "*"
