[package]
name = "dvop"
version = "0.1.0"
edition = "2021"
publish = false

[dependencies]
home = "*"
lazy_static = "*"
mime_guess = "*"
once_cell = "*"
regex = "*"
serde = { version = "1", features = ["derive"] }
serde_json = "1"
toml = "*"

[dev-dependencies]
tempfile = "*"
