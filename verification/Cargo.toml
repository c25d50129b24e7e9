[package]
name = "httpr"
version = "0.1.0"
edition = "2021"
publish = false

[dependencies]
base64 = "0.22"
md-5 = "0.10"
sha1 = "0.10"
sha2 = "0.10"
percent-encoding = "2"
url = "2"
flate2 = "1"
brotli = "*"
zstd = "*"
rand = "*"
pyo3 = "*"
reqwest = { version = "*", default-features = false, features = ["blocking"] }
serde_json = "1"
