[package]
name = "microscope"
version = "0.1.0"
edition = "2021"
publish = false

[dependencies]
ndarray = "*"
serde = { version = "*", features = ["derive"] }
serde_json = "*"
thiserror = "*"
