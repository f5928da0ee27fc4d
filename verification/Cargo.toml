[package]
name = "texforge"
version = "0.1.0"
edition = "2021"
publish = false

[dependencies]
anyhow = "1"
clap = { version = "4", features = ["derive"] }
dirs = "*"
inquire = "*"
mermaid-rs-renderer = "*"
reqwest = { version = "0.12", default-features = false, features = ["blocking", "json", "rustls-tls"] }
resvg = "*"
serde = { version = "1", features = ["derive"] }
thiserror = "*"
toml = "*"
walkdir = "2"
