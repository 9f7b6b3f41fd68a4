[package]
name = "simperby_repository"
version = "0.1.0"
edition = "2021"
publish = false

[dependencies]
eyre = "0.6"
hex = "0.4"
log = "0.4"
serde = { version = "1", features = ["derive"] }
thiserror = "1"
tokio = { version = "1", features = ["rt"] }
