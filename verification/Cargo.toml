[package]
name = "golem_cli"
version = "0.1.0"
edition = "2021"
publish = false

[dependencies]
anyhow = "1"
colored = "2"
iso8601 = "*"
itertools = "*"
serde = { version = "1", features = ["derive"] }
serde_json = "1"
serde_yaml = "*"
url = { version = "2", features = ["serde"] }
