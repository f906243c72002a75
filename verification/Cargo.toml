[package]
name = "tex2typst_ui"
version = "0.1.0"
edition = "2021"
publish = false

[dependencies]
tex2typst-rs = "=0.4.1"
typstyle-core = "=0.12.15"
egui = "=0.31.1"
eframe = { version = "=0.31.1", default-features = false, features = ["glow", "persistence", "x11"] }
egui-notify = "=0.19.0"
serde = { version = "=1.0.229", features = ["derive"] }
wasm-bindgen = "=0.2.129"
web-sys = "=0.3.106"

[dev-dependencies]
regex = "=1.13.1"
