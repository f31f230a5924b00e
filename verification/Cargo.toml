[package]
name = "c2pa-font-handler"
version = "0.1.0"
edition = "2021"
publish = false

[dependencies]
byteorder = "1"
thiserror = "2"
flate2 = "1"
cosmic-text = "*"
resvg = "*"
svg = "*"
tiny-skia = "*"
unicode-script = "*"
image = { version = "*", default-features = false, features = ["png"] }
tracing = "*"
