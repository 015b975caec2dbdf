[package]
name = "loxia"
version = "0.1.0"
edition = "2021"
publish = false

[dependencies]
smallvec = "=1.16.4"
rand = "=0.9.5"
rand_chacha = "=0.9.0"
jiff = "=0.2.39"
unicode-segmentation = "=1.13.3"
serde = { version = "=1.0.229", features = ["derive"] }
serde_json = "=1.0.154"
toml = "=0.9.12"
thiserror = "=2.0.21"
dirs = "=6.0.0"
nucleo-matcher = "0.3"
fs4 = "*"
