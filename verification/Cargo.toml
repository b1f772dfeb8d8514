[package]
name = "tabulae"
version = "0.1.0"
edition = "2021"
publish = false

[dependencies]
spargebra = "*"
serde = { version = "*", features = ["derive"] }
serde_json = "*"
anyhow = "*"
clap = { version = "*", features = ["derive"] }
duckdb = "*"
glob = "*"
tempfile = "*"
tar = "*"
log = "*"
env_logger = "*"
reqwest = { version = "*", default-features = false }
tokio = { version = "*", features = ["macros", "rt"] }
futures-util = "*"
indicatif = "*"
