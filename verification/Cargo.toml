[package]
name = "palette_remap"
version = "0.1.0"
edition = "2021"
publish = false

[dependencies]
anyhow = "1"
image = { version = "0.25", default-features = false, features = ["bmp", "gif", "jpeg", "png"] }
indicatif = "0.17"
rayon = "1"
thiserror = "1"
