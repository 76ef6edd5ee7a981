[package]
name = "argdef"
version = "0.1.0"
edition = "2021"
publish = false

[dependencies]
anyhow = "=1.0.104"
console = { version = "=0.16.6", default-features = false, features = ["std"] }
enumflags2 = "=0.7.12"
indicatif = "=0.16.2"
pathdiff = "=0.2.3"
serde = { version = "=1.0.229", features = ["derive"] }
serde_json = "=1.0.154"
thiserror = "=1.0.69"
ureq = "=2.12.1"
url = "=2.5.8"
