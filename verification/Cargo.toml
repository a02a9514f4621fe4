[package]
name = "desktop_entry_daemon"
version = "0.1.0"
edition = "2021"
publish = false

[dependencies]
image = { version = "=0.25.10", default-features = false, features = ["png", "pnm", "jpeg", "gif", "bmp", "ico", "webp", "tga", "qoi", "ff"] }
svg = "=0.18.0"
log = "=0.4.34"
env_logger = "=0.11.11"
async-std = { version = "=1.13.2", features = ["attributes"] }
zbus = "=5.19.0"
