[package]
name = "photoflow"
version = "0.1.0"
edition = "2021"
publish = false

[dependencies]
image = { version = "*", default-features = false, features = ["jpeg"] }
blake3 = "*"
arrayvec = "*"
rusqlite = "*"
walkdir = "*"
rayon = "*"
nom-exif = "*"
chrono = "*"
anyhow = "*"
log = "*"
env_logger = "*"
toml = "*"
