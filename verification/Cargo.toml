[package]
name = "ani2hyprtui"
version = "0.1.0"
edition = "2021"
publish = false

[dependencies]
anyhow = "1"
byteorder = "1"
crossbeam-channel = "0.5"
dirs = "*"
image = { version = "0.25", default-features = false, features = ["png", "bmp"] }
imageproc = { version = "*", default-features = false }
serde = { version = "1", features = ["derive"] }
tempfile = "3"
toml = "*"
walkdir = "2"
xcursor = "*"
zip = { version = "*", default-features = false, features = ["deflate"] }
