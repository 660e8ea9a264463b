[package]
name = "room_registry"
version = "0.1.0"
edition = "2021"
publish = false

[dependencies]
actix = "=0.13.5"
actix-broker = "=0.4.4"
actix-web = "=4.18.1"
actix-web-actors = "4"
env_logger = "=0.11.11"
rand = "=0.8.8"
serde = { version = "=1.0.229", features = ["derive"] }
thiserror = "=1.0.69"
