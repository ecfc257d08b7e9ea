[package]
name = "mumble_spaces"
version = "0.1.0"
edition = "2021"
publish = false

[dependencies]
aes = "=0.8.4"
anyhow = "=1.0.104"
base64 = "=0.22.1"
clap = { version = "=4.6.7", features = ["derive"] }
getrandom = "=0.3.4"
prost = "=0.13.5"
prost-types = "=0.13.5"
ring = "=0.17.14"
rustls-pemfile = "=2.2.0"
rustls-pki-types = "=1.15.1"
serde = { version = "=1.0.229", features = ["derive"] }
serde_json = "=1.0.154"
thiserror = "=2.0.21"
tokio = { version = "=1.54.1", features = ["full"] }
tokio-stream = { version = "=0.1.19", features = ["net"] }
tonic = "=0.12.3"
