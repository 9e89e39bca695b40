[package]
name = "tome"
version = "0.1.0"
edition = "2021"
publish = false

[dependencies]
askama = "0.12"
askama_axum = "0.3"
askama_escape = "0.10"
axum = { version = "0.6", features = ["multipart"] }
axum-macros = "0.3"
clap = { version = "4", features = ["derive"] }
color-eyre = "0.6"
figment = { version = "0.10", features = ["toml"] }
futures = "0.3"
pulldown-cmark = { version = "0.9", default-features = false }
serde = { version = "1", features = ["derive"] }
time = { version = "0.3", features = ["formatting"] }
tokio = { version = "1", features = ["full"] }
tokio-stream = { version = "0.1", features = ["fs"] }
tower-http = { version = "0.4", features = ["fs"] }
tracing = "0.1"
tracing-subscriber = "0.3"
urlencoding = "2"
uuid = { version = "1", features = ["v4"] }
