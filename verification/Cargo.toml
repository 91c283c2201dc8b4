[package]
name = "edisondb"
version = "0.1.0"
edition = "2021"
publish = false

[dependencies]
aes-gcm = "0.10"
argon2 = "0.5"
rand = "0.8"
blake3 = "1"
redb = "2"
serde = { version = "1", features = ["derive"] }
serde_json = "1"
thiserror = "1"
instant-distance = "0.6"
reqwest = { version = "0.12", default-features = false, features = ["blocking", "json"] }
rustyline = "14"
rpassword = "7"
fjall = "*"
tokio = { version = "1", features = ["time"] }
zeroize = "1"
jni = "0.21"
