[package]
name = "provenance_graph"
version = "0.1.0"
edition = "2021"
publish = false

[dependencies]
anyhow = "=1.0.104"
eframe = { version = "0.29", default-features = false, features = ["glow", "default_fonts", "persistence"] }
egui = "0.29"
egui_plot = "0.29"
log = "=0.4.34"
reqwest = { version = "=0.11.27", default-features = false, features = ["json"] }
serde = { version = "=1.0.229", features = ["derive"] }
tokio = { version = "=1.54.1", features = ["rt", "rt-multi-thread"] }
wasm-bindgen-futures = "=0.4.79"
