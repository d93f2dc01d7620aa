[package]
name = "matcha"
version = "0.1.0"
edition = "2021"
publish = false

[dependencies]
anyhow = "1"
bytes = "1"
clap = { version = "4", features = ["derive", "env"] }
color-eyre = "0.6"
futures-util = "0.3"
indicatif = "0.17"
once_cell = "1"
reqwest = { version = "0.12", default-features = false, features = ["rustls-tls", "stream"] }
serde = { version = "1", features = ["derive"] }
shellexpand = "3"
sqlx = { version = "0.8", default-features = false, features = ["runtime-tokio", "sqlite", "macros", "time"] }
tempfile = "3"
time = "0.3"
tokio = { version = "1", features = ["full"] }
toml = "0.8"
tracing = "0.1"
url = "2"
