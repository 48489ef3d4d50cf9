[package]
name = "message_bus"
version = "0.1.0"
edition = "2021"
publish = false

[dependencies]
bytemuck = "=1.25.2"
glam = "=0.33.12"
serde = { version = "=1.0.229", features = ["derive"] }
tracing = "=0.1.44"
