[package]
name = "wallpaper_slideshow"
version = "0.1.0"
edition = "2021"
publish = false

[dependencies]
base64 = "*"
chrono = "*"
crossterm = "*"
flate2 = "*"
image = { version = "*", default-features = false, features = ["jpeg", "png"] }
libc = "*"
rand = "*"
rayon = "*"
rexif = "*"
rusqlite = { version = "*", features = ["bundled"] }
walkdir = "*"
