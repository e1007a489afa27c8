[package]
name = "fluor"
version = "0.1.0"
edition = "2021"
publish = false

[dependencies]
wide = "0.7"
rayon = "1"
libm = "0.2"
cosmic-text = "0.14"
swash = "0.2"
winit = { version = "0.30", default-features = false, features = ["x11", "rwh_06"] }
