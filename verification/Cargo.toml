[package]
name = "image_ffi"
version = "0.1.0"
edition = "2021"
publish = false

[dependencies]
libloading = "0.8"
serde = { version = "1", features = ["derive"] }
serde_json = "1"
clap = { version = "4", features = ["derive"] }
clap_builder = "4"
thiserror = "*"
image = { version = "*", default-features = false, features = ["png"] }
