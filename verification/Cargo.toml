[package]
name = "rate_gate"
version = "0.1.0"
edition = "2021"
publish = false

[dependencies]
anyhow = "1"
axum = "=0.6.20"
clap = { version = "4", features = ["derive"] }
dotenv = "0.15"
hyper = { version = "=0.14.32", features = ["full"] }
lettre = { version = "=0.10.4", default-features = false, features = ["smtp-transport", "builder"] }
maud = { version = "=0.25.0", features = ["axum"] }
redb = "1"
tokio = { version = "1", features = ["full"] }
tower-http = { version = "=0.4.4", features = ["trace"] }
tracing = "0.1"
tracing-subscriber = { version = "0.3", features = ["env-filter"] }
