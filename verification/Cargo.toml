[package]
name = "zenith"
version = "0.1.0"
edition = "2021"
publish = false

[dependencies]
kdl = "6"
csv = "1"
serde = { version = "1", features = ["derive"] }
serde_json = "1"
sha2 = "0.10"
tiny-skia = "0.11"
clap = { version = "4", features = ["derive"] }

[dev-dependencies]
tempfile = "3"
