[package]
name = "mcm_finder"
version = "0.1.0"
edition = "2021"
publish = false

[dependencies]
uuid = { version = "=1.29.1", features = ["v4", "serde"] }
chrono = { version = "=0.4.45", features = ["serde"] }
sha2 = "=0.10.9"
serde = { version = "=1.0.229", features = ["derive"] }
serde_json = "=1.0.154"
tokio = { version = "=1.54.1", features = ["macros", "rt-multi-thread", "sync", "fs", "net", "time"] }
axum = "=0.7.9"
axum-server = { version = "=0.7.3", features = ["tls-rustls"] }
reqwest = { version = "=0.12.28", default-features = false, features = ["json", "rustls-tls"] }
sqlx = { version = "=0.7.4", default-features = false, features = ["runtime-tokio", "sqlite"] }
clap = { version = "=4.6.7", features = ["derive"] }
colored = "=2.2.0"
indicatif = "=0.17.11"
tracing = "=0.1.44"
tracing-subscriber = { version = "=0.3.23", features = ["env-filter", "fmt"] }
thiserror = "=1.0.69"
futures = "=0.3.34"
async-trait = "=0.1.92"
