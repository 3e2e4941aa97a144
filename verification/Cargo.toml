[package]
name = "tag2dir"
version = "0.1.0"
edition = "2021"
publish = false

[dependencies]
kamadak-exif = "*"
roxmltree = "*"
walkdir = "*"
image = { version = "*", default-features = false, features = ["jpeg", "png"] }
base64 = "*"
uuid = { version = "*", features = ["v4"] }
chrono = "*"
log = "*"
serde = { version = "*", features = ["derive"] }
