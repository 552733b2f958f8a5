[package]
name = "personal_website"
version = "0.1.0"
edition = "2021"
publish = false

[dependencies]
comrak = "*"
image = "*"
image_compressor = "*"
