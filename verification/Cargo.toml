[package]
name = "kube_cel"
version = "0.1.0"
edition = "2021"
publish = false

[dependencies]
cel = "=0.12.0"
chrono = "=0.4.45"
ipnet = "=2.12.2"
regex = "=1.13.1"
semver = "=1.0.28"
serde = { version = "=1.0.229", features = ["derive"] }
serde_json = "=1.0.154"
url = "=2.5.8"
