[package]
name = "ajour_core"
version = "0.1.0"
edition = "2021"
publish = false

[dependencies]
regex = "1"
serde = { version = "1", features = ["derive"] }
log = "0.4"
fern = "0.6"
chrono = "0.4"
log-panics = "2"
anyhow = "1"
