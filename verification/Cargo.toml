[package]
name = "nervctf"
version = "0.1.0"
edition = "2021"
publish = false

[dependencies]
sha2 = "=0.10.9"
rand = "=0.8.8"
shlex = "=1.3.0"
serde = { version = "=1.0.229", features = ["derive"] }
serde_json = "=1.0.154"
serde_yaml = "=0.9.34"
anyhow = "=1.0.104"
clap = { version = "=4.6.7", features = ["derive"] }
walkdir = "=2.5.0"
dialoguer = "=0.11.0"
tempfile = "=3.27.0"
tokio = { version = "1", features = ["rt-multi-thread", "macros"] }
reqwest = { version = "0.12", default-features = false, features = ["json", "multipart"] }
