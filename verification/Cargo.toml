[package]
name = "progscrape"
version = "0.1.0"
edition = "2021"
publish = false

[dependencies]
url = "=2.5.8"
urlnorm = "=0.1.6"
regex = "=1.13.1"
base64 = "=0.22.1"
chrono = { version = "=0.4.45", default-features = false, features = ["std", "clock"] }
serde = { version = "=1.0.229", features = ["derive"] }
serde_json = "=1.0.154"
roxmltree = "=0.21.2"
tl = "=0.7.8"
rand = "=0.8.8"
flate2 = "=1.1.10"
sha2 = "0.10"
infer = "*"
