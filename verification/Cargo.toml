[package]
name = "wbwime"
version = "0.1.0"
edition = "2021"
publish = false

[dependencies]
fst = "=0.4.7"
memmap2 = "=0.9.12"
serde = { version = "=1.0.229", features = ["derive"] }
serde_yaml = "=0.9.34"
toml = "=1.1.8"
lru = "=0.19.0"
