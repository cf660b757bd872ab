[package]
name = "rustcraft"
version = "0.1.0"
edition = "2021"
publish = false

[dependencies]
regex = "1"
scanlex = "*"
pathfinding = "*"
rand = "0.8"
serde = { version = "1", features = ["derive"] }
toml = "0.5"
bincode = "1"
cgmath = "0.18"
hecs = "*"
itertools = "0.10"
derive_more = "0.99"
serde_json = "1"
image = { version = "0.23", default-features = false, features = ["png"] }
gl = "0.14"
sdl2 = "0.34"
alto = "*"
lewton = "*"
