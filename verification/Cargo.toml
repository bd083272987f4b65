[package]
name = "kanae"
version = "0.1.0"
edition = "2021"
publish = false

[dependencies]
base64 = "0.22"
sha1 = "0.10"
unicode-width = "0.2"
kakasi = "*"
serde = { version = "1", features = ["derive"] }
serde_json = "1"
ureq = { version = "3", features = ["json"] }
lofty = "*"
cd-da-reader = "*"
symphonia = "*"
