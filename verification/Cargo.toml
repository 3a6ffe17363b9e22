[package]
name = "keypoint_grid"
version = "0.1.0"
edition = "2021"
publish = false

[dependencies]
glam = "*"
image = { version = "*", default-features = false }
imageproc = { version = "*", default-features = false }
kornia-image = "*"
kornia-tensor-ops = "*"
rayon = "*"
