[package]
name = "dlssdl"
version = "0.1.0"
edition = "2021"
publish = false

[dependencies]
anyhow = "=1.0.104"
dirs = "=7.0.0"
eframe = { version = "=0.37.0", default-features = false, features = ["wgpu", "default_fonts", "x11"] }
egui = { version = "=0.37.0", default-features = false }
open = "=5.4.5"
rfd = "=0.17.2"
roxmltree = "=0.21.2"
sha2 = "=0.11.1"
ureq = "=2.12.1"
zip = { version = "=8.6.0", default-features = false, features = ["deflate"] }
