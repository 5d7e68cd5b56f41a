[package]
name = "lsystem"
version = "0.1.0"
edition = "2021"
publish = false

[dependencies]
rand = "=0.8.8"
rand_chacha = "=0.3.1"
serde = { version = "=1.0.229", features = ["derive"] }
serde_json = "=1.0.154"
# Vectors and quaternions for app/, which places the shapes in space. The
# library itself does not use it.
glam = "=0.34.1"
lazy_static = "=1.5.1"
