[package]
name = "copetch"
version = "0.1.0"
edition = "2021"
publish = false

[dependencies]
base64 = "0.22"
image = { version = "0.25", default-features = false, features = ["gif", "png"] }
serde = { version = "1", features = ["derive"] }
toml = "0.8"
