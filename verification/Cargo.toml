[package]
name = "glium_text"
version = "0.1.0"
edition = "2021"
publish = false

[dependencies]
freetype-rs = "*"
unicode-normalization = "*"
glium = { version = "*", default-features = false }
nalgebra = "*"
