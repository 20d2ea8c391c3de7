[package]
name = "dynamic_schema"
version = "0.1.0"
edition = "2021"
publish = false

[dependencies]
once_cell = "1"
serde = { version = "1", features = ["derive"] }

[dev-dependencies]
bincode = "1"
glam = { version = "*", features = ["serde"] }
