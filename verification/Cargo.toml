[package]
name = "leaf"
version = "0.1.0"
edition = "2021"
publish = false

[dependencies]
kuznyechik = "0.8"
streebog = "0.10"
argon2 = "0.5"
base64 = "0.22"
hex = "0.4"
flate2 = "1"
reed-solomon-erasure = "6"
aes-gcm = "0.10"
kuznechik = "*"
sharks = "0.5"
openssl = "0.10"
rand = "0.8"
serde = { version = "1", features = ["derive"] }
serde_json = "1"
tokio = { version = "1", features = ["full"] }
clap = { version = "4", features = ["derive"] }
clap_derive = "4"
dialoguer = "0.11"
dirs = "5"
uuid = { version = "1", features = ["v4"] }
local-ip-address = "0.6"
pnet = "0.34"
nix = "0.29"
users = "0.11"
libc = "0.2"
rayon = "1"
anyhow = "1"
