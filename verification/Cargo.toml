[package]
name = "vis_rs"
version = "0.1.0"
edition = "2021"
publish = false

[dependencies]
anyhow = "1"
fftw = "*"
jemallocator = "*"
sdl2 = "*"
serde = { version = "1", features = ["derive"] }
serde_yaml = "*"
