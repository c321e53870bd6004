[package]
name = "screen_match"
version = "0.1.0"
edition = "2021"
publish = false

[dependencies]
image = { version = "0.25", default-features = false, features = ["png", "jpeg", "bmp"] }
enigo = "*"
xcap = "*"
log = "0.4"
thiserror = "1"
serde = { version = "1", features = ["derive"] }
