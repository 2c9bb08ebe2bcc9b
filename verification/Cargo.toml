[package]
name = "virtio_blk_driver"
version = "0.1.0"
edition = "2021"
publish = false

[dependencies]
serde = { version = "=1.0.229", features = ["derive"] }
virtio-drivers = "=0.13.0"
