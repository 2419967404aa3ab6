[package]
name = "docker_registry"
version = "0.1.0"
edition = "2021"
publish = false

[dependencies]
libflate = "=2.3.2"
serde = { version = "1", features = ["derive"] }
serde_json = "1"
sha2 = "0.10"
tar = "=0.4.46"
thiserror = "=1.0.69"
zstd = "=0.13.3"
