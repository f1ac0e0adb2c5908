[package]
name = "kompusim_gui"
version = "0.1.0"
edition = "2021"
publish = false

[dependencies]
egui = "=0.22.0"
serde = { version = "1", features = ["derive"] }
