[package]
name = "ark"
version = "0.1.0"
edition = "2021"
publish = false

[dependencies]
aes-gcm = "0.10"
argon2 = "0.5"
clap = { version = "4", features = ["derive"] }
curve25519-dalek = "4"
dotenvy = "0.15"
ed25519-dalek = "2"
getrandom = "0.2"
hkdf = "0.12"
hpke = "0.12"
libc = "0.2"
notify = "6"
percent-encoding = "2"
rand = "0.8"
serde = { version = "1", features = ["derive"] }
serde_jcs = "0.1"
serde_json = "1"
sha2 = "0.10"
url = "2"
uuid = { version = "1", features = ["v4"] }
xattr = "1"
