[package]
name = "rusty_capture"
version = "0.1.0"
edition = "2021"
publish = false

[dependencies]
image = "*"
imageproc = "*"
rusttype = "*"
chrono = "*"
serde = { version = "*", features = ["derive"] }
serde_json = "*"
