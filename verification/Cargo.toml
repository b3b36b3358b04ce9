[package]
name = "glry"
version = "0.1.0"
edition = "2021"
publish = false

[dependencies]
anyhow = "1"
arboard = "3"
base64 = "0.22"
chrono = "0.4"
clap = { version = "4", features = ["derive"] }
crossterm = "0.28"
dirs = "5"
kamadak-exif = "*"
image = "0.25"
ratatui = "0.29"
ratatui-image = "8"
rayon = "1"
serde_json = "1"
ureq = { version = "2", features = ["json"] }
xxhash-rust = { version = "0.8", features = ["xxh3"] }
