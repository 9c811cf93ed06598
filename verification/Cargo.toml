[package]
name = "quire_ui"
version = "0.1.0"
edition = "2021"
publish = false

[dependencies]
miniz_oxide = "*"
postcard = { version = "*", features = ["alloc"] }
qrcodegen = "*"
serde = { version = "*", features = ["derive"] }
