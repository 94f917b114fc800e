[package]
name = "brush_ir"
version = "0.1.0"
edition = "2021"
publish = false

[dependencies]
rand = "0.9"
serde = { version = "1", features = ["derive"] }
clap = { version = "4", features = ["derive"] }
tokio = { version = "1", features = ["sync", "rt", "macros"] }
glam = "*"
tracing = "0.1"
