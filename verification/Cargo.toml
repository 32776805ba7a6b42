[package]
name = "stellaris"
version = "0.1.0"
edition = "2021"
publish = false

[dependencies]
anyhow = "1"
axum = "*"
chrono = "*"
clap = { version = "4", features = ["derive"] }
futures = "*"
glob = "*"
notify = "*"
pulldown-cmark = "*"
rss = "*"
serde = { version = "1", features = ["derive"] }
serde_json = "1"
serde_yaml = "*"
syntect = { version = "5", default-features = false, features = ["default-fancy"] }
tera = "1"
tokio = { version = "1", features = ["full"] }
toml = "*"
tower-http = { version = "*", features = ["fs"] }
tracing = "*"
tracing-subscriber = { version = "*", features = ["env-filter"] }
