[package]
name = "gust"
version = "0.1.0"
edition = "2021"
publish = false

[dependencies]
anyhow = "1"
chrono = { version = "0.4", features = ["serde"] }
git2 = { version = "*", default-features = false }
pathdiff = "0.2"
paw = "1"
serde = { version = "1", features = ["derive"] }
serde_json = "1"
serde_yaml = "*"
structopt = { version = "0.3", features = ["paw"] }
