[package]
name = "xtract"
version = "0.1.0"
edition = "2021"
publish = false

[dependencies]
thiserror = "=2.0.21"
tokio = { version = "=1.54.1", features = ["rt"] }
zip = "=9.0.5"
