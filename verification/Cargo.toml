[package]
name = "anonymous_conference"
version = "0.1.0"
edition = "2021"
publish = false

[dependencies]
argon2 = "0.5"
chacha20poly1305 = "0.10"
curve25519-dalek = { version = "4", features = ["rand_core", "digest"] }
nazgul = "*"
rand_core = { version = "0.6", features = ["getrandom"] }
sha3 = "0.10"
async-std = { version = "1", features = ["attributes"] }
async-native-tls = "0.5"
futures = "0.3"
log = "0.4"
env_logger = "0.11"
rand = "0.8"
gtk4 = "*"
relm4 = "*"
