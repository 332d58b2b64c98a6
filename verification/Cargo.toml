[package]
name = "rfdetr_ort"
version = "0.1.0"
edition = "2021"
publish = false

[dependencies]
anyhow = "=1.0.104"
clap = { version = "=4.6.7", features = ["derive"] }
crossbeam-channel = "=0.5.17"
fast_image_resize = "=5.5.0"
image = "=0.25.10"
ort = { version = "=2.0.0-rc.12", default-features = false, features = ["std", "load-dynamic", "cuda", "tensorrt", "api-24"] }
rayon = "=1.12.0"
thiserror = "=2.0.21"
