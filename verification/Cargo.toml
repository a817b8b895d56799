[package]
name = "skate_util"
version = "0.1.0"
edition = "2021"
publish = false

[dependencies]
deunicode = "*"
itertools = "*"
anyhow = "*"
base64 = "*"
chrono = "*"
fs2 = "*"
k8s-openapi = { version = "*", features = ["latest"] }
once_cell = "*"
regex = "*"
serde = { version = "*", features = ["derive"] }
serde_yaml = "*"
