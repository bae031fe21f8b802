[package]
name = "ripsaw"
version = "0.1.0"
edition = "2021"
publish = false

[dependencies]
anyhow = "1"
futures = "0.3"
serde = { version = "1", features = ["derive"] }
thiserror = "1"
wide = "0.7"
