[package]
name = "exif_decoder"
version = "0.1.0"
edition = "2021"
publish = false

[dependencies]
clap = "3"
kamadak-exif = "0.5"
image = { version = "0.24", default-features = false, features = ["jpeg"] }
walkdir = "2"
