[package]
name = "mona"
version = "0.1.0"
edition = "2021"
publish = false

[dependencies]
base64 = "*"
byteorder = "1"
clap = "2"
csv = "1"
git2 = "*"
ring = "*"
serde = { version = "1", features = ["derive"] }
serde_json = "1"
time = "0.1"
toml = "0.5"
url = "*"
