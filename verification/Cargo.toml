[package]
name = "rustix_runtime"
version = "0.1.0"
edition = "2021"
publish = false

[dependencies]
image = "0.25"
egui = "*"
hecs = "0.10"
serde = { version = "1", features = ["derive"] }
serde_json = "1"
bytemuck = { version = "1", features = ["derive"] }
tracing = "0.1"
half = "2"
