[package]
name = "kovi_plugins"
version = "0.1.0"
edition = "2021"
publish = false

[dependencies]
image = "=0.25.10"
kovi = "=0.13.5"
kovi-milky = "=0.13.5"
reqwest = "=0.13.5"
serde = { version = "=1.0.229", features = ["derive"] }
uuid = { version = "=1.29.0", features = ["v4"] }
