[package]
name = "encryptallinator"
version = "0.1.0"
edition = "2021"
publish = false

[dependencies]
aes-gcm = "=0.10.3"
argon2 = "=0.5.3"
bincode = "=1.3.3"
rand = "=0.8.5"
serde = { version = "1", features = ["derive"] }
tar = "=0.4.46"
walkdir = "=2.5.0"
thiserror = "=1.0.69"
