[package]
name = "sdl2sketch"
version = "0.1.0"
edition = "2021"
publish = false

[dependencies]
sdl2 = { version = "*", features = ["gfx", "image"] }
sdl2-sys = "*"
