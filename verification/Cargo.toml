[package]
name = "mailsync"
version = "0.1.0"
edition = "2021"
publish = false

[dependencies]
async-imap = "*"
async-native-tls = "*"
async-std = "*"
base64 = "*"
chrono = { version = "*", default-features = false, features = ["std"] }
futures = "*"
regex = "*"
rusqlite = { version = "*", features = ["array"] }
url-escape = "*"
