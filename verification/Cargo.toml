[package]
name = "single_flight"
version = "0.1.0"
edition = "2021"
publish = false

[dependencies]
anyhow = "=1.0.104"
axum = "=0.8.9"
dotenvy = "=0.15.7"
serde = { version = "=1.0.229", features = ["derive"] }
tokio = { version = "=1.53.2", features = ["macros", "net", "process", "rt-multi-thread", "sync"] }
toml = "=1.1.7"
tower-http = { version = "=0.7.1", features = ["auth", "trace"] }
