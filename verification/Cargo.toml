[package]
name = "descrambler"
version = "0.1.0"
edition = "2021"
publish = false

[dependencies]
image = { version = "0.25", default-features = false, features = ["jpeg", "png"] }
regex = "1"
reqwest = { version = "0.12", features = ["blocking"] }
serde_json = "1"
