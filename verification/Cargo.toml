[package]
name = "qrender"
version = "0.1.0"
edition = "2021"
publish = false

[dependencies]
percent-encoding = "2"
serde = { version = "1", features = ["derive"] }
serde_json = "1"
toml = "*"
thiserror = "*"
reqwest = { version = "0.12", default-features = false, features = ["json", "rustls-tls"] }
tokio = { version = "1", features = ["macros", "rt-multi-thread", "net"] }
axum = "0.8"
redis = { version = "*", features = ["tokio-comp"] }
askama = "*"
handlebars = "*"
clap = { version = "4", features = ["derive"] }
dotenvy = "0.15"
