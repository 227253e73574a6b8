[package]
name = "chipr8"
version = "0.1.0"
edition = "2021"
publish = false

[dependencies]
rand = "*"
docopt = "*"
serde = { version = "*", features = ["derive"] }
sdl2 = "*"
