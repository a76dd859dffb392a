[package]
name = "saute"
version = "0.1.0"
edition = "2021"
publish = false

[dependencies]
freetype-rs = "*"
sdl2 = "*"
