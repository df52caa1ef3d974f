[package]
name = "mdlux"
version = "0.1.0"
edition = "2021"
publish = false

[dependencies]
anyhow = "*"
base64 = "*"
clap = { version = "*", features = ["derive"] }
image = { version = "*", default-features = false, features = ["png", "jpeg", "gif", "bmp", "webp"] }
pulldown-cmark = { version = "*", default-features = false }
syntect = { version = "*", default-features = false, features = ["default-fancy"] }
terminal_size = "*"
unicode-width = "*"
