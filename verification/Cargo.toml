[package]
name = "panorama"
version = "0.1.0"
edition = "2021"
publish = false

[dependencies]
atm-refraction = { version = "=0.6.1", features = ["serialization"] }
bincode = "=1.3.3"
dted = "=0.2.0"
geotiff-rs = "=0.1.1"
image = "=0.25.10"
libflate = "=2.3.2"
nalgebra = "=0.35.0"
rayon = "=1.12.0"
serde = { version = "=1.0.229", features = ["derive"] }
serde_yaml = "=0.9.34"
