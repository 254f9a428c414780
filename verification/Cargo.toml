[package]
name = "hermes-desktop"
version = "0.1.0"
edition = "2021"
publish = false

[dependencies]
url = "2"
log = "0.4"
serde_json = "1"
tauri = { version = "2", default-features = false, features = ["unstable", "wry", "x11"] }
x11-dl = "2"
