[package]
name = "accuracy_heatmap"
version = "0.1.0"
edition = "2021"
publish = false

[dependencies]
ab_glyph = "*"
clap = { version = "*", features = ["derive"] }
env_logger = "*"
image = "*"
imageproc = "*"
log = "*"
rust-htslib = { version = "*", default-features = false }
