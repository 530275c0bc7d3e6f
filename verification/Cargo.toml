[package]
name = "ffsend_api"
version = "0.1.0"
edition = "2021"
publish = false

[dependencies]
base64 = "0.22"
clap = "2.34"
failure = "0.1"
hkdf = "0.12"
mime_guess = "2.0"
openssl = "0.10"
reqwest = { version = "0.12", default-features = false, features = ["blocking", "multipart", "default-tls"] }
sha2 = "0.10"
url = "2.5"
