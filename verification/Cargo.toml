[package]
name = "blog"
version = "0.1.0"
edition = "2021"
publish = false

[dependencies]
actix-files = "0.6"
actix-web = { version = "4", features = ["openssl"] }
env_logger = "*"
futures = "0.3"
lazy_static = "1"
log = "0.4"
markdown = "*"
mime = "0.3"
openssl = "0.10"
serde = { version = "1", features = ["derive"] }
time = "0.3"
tokio = { version = "1", features = ["fs"] }
