[package]
name = "pathtracer"
version = "0.1.0"
edition = "2021"
publish = false

[dependencies]
derive_more = "=0.99.20"
glam = "=0.24.2"
image = { version = "=0.24.9", default-features = false, features = ["jpeg", "png"] }
ord_subset = "=3.1.2"
rand = "=0.8.8"
rayon = "=1.12.0"
show-image = { version = "=0.13.1", features = ["image"] }
