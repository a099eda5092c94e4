[package]
name = "remani"
version = "0.1.0"
edition = "2021"
publish = false

[dependencies]
serde = { version = "=1.0.229", features = ["derive"] }
serde_derive = "=1.0.229"
toml = "=0.5.11"
hound = "=3.5.1"
lewton = "=0.10.2"
directories = "=6.0.0"
cpal = "=0.8.2"
simplemad = "=0.9.0"
pistoncore-input = "*"
