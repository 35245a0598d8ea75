[package]
name = "mini_curl"
version = "0.1.0"
edition = "2021"
publish = false

[dependencies]
clap = { version = "4", features = ["derive"] }
rand = "0.8"
rustls = { version = "0.23", default-features = false, features = ["ring", "std", "tls12"] }
rustls-native-certs = "0.7"
rustls-pki-types = "1"
trust-dns-resolver = "0.23"
url = "2"
