[package]
name = "xeres"
version = "0.0.1"
edition = "2021"
publish = false

[dependencies]
argon2 = { version = "0.5", features = ["std"] }
hmac = "0.13"
sha2 = "0.11"
rust_decimal = "1"
ureq = "2"
postgres = "0.19"
postgres-native-tls = "0.5"
native-tls = "0.2"
rustls = { version = "0.23", default-features = false, features = ["ring", "std", "tls12"] }
rustls-pemfile = "2"
