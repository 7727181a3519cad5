[package]
name = "ono_cli"
version = "0.1.0"
edition = "2021"
publish = false

[dependencies]
base64 = "0.22"
sha2 = "0.10"
jiff = "0.2"
serde = { version = "1", features = ["derive"] }
serde_json = "1"
serde_yaml_ng = "0.10"
tar = "0.4"
ureq = "3"
ring = "0.17"
rustls-webpki = { version = "0.103", features = ["ring"] }
rustls-pki-types = "1"
x509-parser = "0.17"
