[package]
name = "lme"
version = "0.1.0"
edition = "2021"
publish = false

[dependencies]
nalgebra = "*"
serde = { version = "*", features = ["derive"] }
serde_json = "*"
serde_yaml = "*"
zstd = "*"
tempfile = "*"
glob = "*"
url = "*"
anyhow = "*"
rayon = "*"
