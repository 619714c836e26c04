[package]
name = "img_resize"
version = "0.1.0"
edition = "2021"
publish = false

[dependencies]
clap = { version = "4", features = ["derive"] }
clap_complete = "4"
image = { version = "0.24", default-features = false, features = ["png", "jpeg"] }
