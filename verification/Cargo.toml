[package]
name = "prof_viewer"
version = "0.1.0"
edition = "2021"
publish = false

[dependencies]
percentage = "*"
serde = { version = "*", features = ["derive"] }
serde_json = "*"
ehttp = "*"
