[package]
name = "projct_core"
version = "0.1.0"
edition = "2021"
publish = false

[dependencies]
glob = "0.3"
walkdir = "2"
toml = "*"
serde = { version = "1", features = ["derive"] }
clap = { version = "4", features = ["derive"] }
