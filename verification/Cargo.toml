[package]
name = "mdvs"
version = "0.1.0"
edition = "2021"
publish = false

[dependencies]
regex = "=1.13.1"
regex-syntax = "=0.8.11"
globset = "=0.4.21"
tabled = "=0.22.0"
terminal_size = "=0.4.4"
xxhash-rust = { version = "=0.8.19", features = ["xxh3"] }
serde = { version = "=1.0.229", features = ["derive"] }
serde_json = "=1.0.154"
toml = "=1.1.8"
toml_edit = "*"
tomljson = "*"
chrono = "0.4"
anyhow = "=1.0.104"
clap = { version = "=4.6.7", features = ["derive"] }
