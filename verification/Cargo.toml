[package]
name = "rust_udcn"
version = "0.1.0"
edition = "2021"
publish = false

[dependencies]
bytes = "=1.12.1"
anyhow = "=1.0.104"
log = "=0.4.34"
thiserror = "=1.0.69"
serde = { version = "=1.0.229", features = ["derive"] }
tokio = { version = "=1.54.1", features = ["full"] }
futures = "=0.3.34"
quinn = "=0.10.2"
rustls = { version = "=0.21.12", features = ["dangerous_configuration"] }
rustls-pemfile = "=1.0.4"
clap = { version = "=4.6.7", features = ["derive"] }
env_logger = "=0.10.2"
aya = "*"
aya-log = "*"
