[package]
name = "locknote"
version = "0.1.0"
edition = "2021"
publish = false

[dependencies]
aes-gcm = "0.10"
argon2 = "0.5"
rand = "0.8"
zeroize = "1"
uuid = { version = "1", features = ["v4"] }
tokio = { version = "1", features = ["fs", "io-util", "rt-multi-thread", "macros"] }
clap = { version = "4", features = ["derive"] }
rpassword = "7"
