[package]
name = "onionpipe"
version = "0.1.0"
edition = "2021"
publish = false

[dependencies]
base64 = "*"
clap = { version = "4", features = ["derive"] }
crypto_box = "*"
curve25519-dalek = "*"
dirs = "*"
keyring = { version = "3", features = ["linux-native"] }
libc = "*"
libtor = "*"
rand = "0.8"
serde = { version = "1", features = ["derive"] }
serde_json = "1"
sha2 = "*"
sha3 = "*"
tempfile = "*"
tokio = { version = "1", features = ["full"] }
tokio-socks = "*"
