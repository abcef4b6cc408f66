[package]
name = "rencache"
version = "0.1.0"
edition = "2021"
publish = false

[dependencies]
stb_truetype_rust = "*"
sdl2 = "*"
