[package]
name = "index_sync"
version = "0.1.0"
edition = "2021"
publish = false

[dependencies]
serde = { version = "1", features = ["derive"] }
serde_json = "1"
elasticsearch = { version = "8.5.0-alpha.1", default-features = false, features = ["rustls-tls"] }
sqlx = { version = "0.7", default-features = false, features = ["postgres", "runtime-tokio", "macros", "time", "uuid"] }
tokio = { version = "1", features = ["full"] }
indicatif = "0.17"
dotenvy = "0.15"
time = "0.3"
axum = "0.7"
askama = "0.12"
tower-http = { version = "0.5", features = ["fs"] }
tracing = "0.1"
tracing-subscriber = { version = "0.3", features = ["env-filter"] }
