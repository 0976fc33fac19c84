[package]
name = "tinyrenderer_rs"
version = "0.1.0"
edition = "2021"
publish = false

[dependencies]
nalgebra = "*"
stb_image_rust = "*"
stb_image_write_rust = "*"
minifb = "*"

[dev-dependencies]
approx = "*"
