[package]
name = "secrets_manager"
version = "0.1.0"
edition = "2021"
publish = false

[dependencies]
aes-gcm = "0.10"
anyhow = "1"
base64 = "0.22"
chrono = "0.4"
clap = { version = "4", features = ["derive"] }
dirs = "*"
pbkdf2 = "0.12"
rand = "0.8"
rpassword = "*"
sha2 = "0.10"
