[package]
name = "landscape_api"
version = "0.1.0"
edition = "2021"
publish = false

[dependencies]
base64 = "*"
chrono = "*"
dotenvy = "*"
hmac = "*"
minreq = { version = "*", features = ["json-using-serde"] }
serde = { version = "*", features = ["derive"] }
serde_json = "*"
sha2 = "*"
structopt = "*"
url = "*"
