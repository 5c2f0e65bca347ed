[package]
name = "blob_extractor"
version = "0.1.0"
edition = "2021"
publish = false

[dependencies]
clap = { version = "4", features = ["derive"] }
color = "*"
derive_more = { version = "*", features = ["from"] }
glob = "*"
image = { version = "0.25", default-features = false, features = ["bmp", "jpeg", "png", "tiff"] }
imageproc = { version = "*", default-features = false }
itertools = "*"
jfifdump = "*"
kamadak-exif = "*"
leptess = "*"
little_exif = "*"
palette = "*"
png = "*"
wild = "*"
