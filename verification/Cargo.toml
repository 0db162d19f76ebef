[package]
name = "chipper"
version = "0.1.0"
edition = "2021"
publish = false

[dependencies]
bitvec = "1"
rand = "*"
anyhow = "*"
clap = { version = "*", features = ["derive"] }
sdl3 = "*"
