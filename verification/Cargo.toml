[package]
name = "tanoshi"
version = "0.1.0"
edition = "2021"
publish = false

[dependencies]
mime_guess = "2"
url = "2"
serde = { version = "1", features = ["derive"] }
serde_json = "1"
ureq = { version = "2", default-features = false }
