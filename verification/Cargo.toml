[package]
name = "seck"
version = "0.1.0"
edition = "2021"
publish = false

[dependencies]
sha3 = "0.10"
hex = "0.4"
base64 = "0.22"
html-escape = "0.2"
rand = "0.9"
x25519-dalek = { version = "2", features = ["static_secrets"] }
subtle = "2"
zeroize = "1"
qrcode = { version = "0.14", default-features = false }
serde = { version = "1", features = ["derive"] }
serde_json = "1"
thiserror = "2"
anyhow = "1"
tokio = { version = "1", features = ["rt-multi-thread", "net", "macros"] }
axum = "0.8"
ratatui = "0.29"
crossterm = "0.28"
landlock = "0.4"
nix = { version = "0.29", features = ["process"] }
libc = "0.2"
clap = { version = "4", features = ["derive"] }
zbus = "5"
