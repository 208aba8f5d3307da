[package]
name = "translation_cli"
version = "0.1.0"
edition = "2021"
publish = false

[dependencies]
anyhow = "=1.0.104"
base64 = "=0.23.1"
chrono = "*"
clap = { version = "*", features = ["derive"] }
futures = "*"
html5ever = "=0.39.0"
markup5ever_rcdom = "=0.39.0"
monolith = "=2.11.2"
reqwest = { version = "*", default-features = false, features = ["json", "rustls-tls"] }
serde_json = "=1.0.151"
tokio = { version = "*", features = ["macros", "rt-multi-thread", "time"] }
tracing = "*"
tracing-subscriber = "*"
url = "*"
