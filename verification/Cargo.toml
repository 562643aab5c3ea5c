[package]
name = "nurep"
version = "0.1.0"
edition = "2021"
publish = false

[dependencies]
rustc-serialize = "0.3.25"
sdl2 = "0.38.0"
