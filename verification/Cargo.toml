[package]
name = "anemoi"
version = "0.1.0"
edition = "2021"
publish = false

[dependencies]
uuid = { version = "=1.29.0", features = ["v4", "serde"] }
chrono = { version = "=0.4.45", features = ["serde"] }
serde_json = "=1.0.154"
serde = { version = "=1.0.229", features = ["derive"] }
serde_yaml = "=0.9.34"
anyhow = "=1.0.104"
thiserror = "=1.0.69"
async-trait = "=0.1.92"
axum = "=0.7.9"
clap = { version = "=4.6.7", features = ["derive"] }
futures = "=0.3.34"
parking_lot = "=0.12.5"
regex = "=1.13.1"
reqwest = { version = "=0.12.28", default-features = false, features = ["json", "stream"] }
rusqlite = { version = "=0.31.0", features = ["bundled"] }
syn = { version = "=2.0.119", features = ["full", "visit", "extra-traits"] }
proc-macro2 = { version = "=1.0.107", features = ["span-locations"] }
tokio = { version = "=1.54.1", features = ["full"] }
tower-http = { version = "=0.5.2", features = ["trace"] }
tracing = "=0.1.44"
tracing-subscriber = { version = "=0.3.23", features = ["env-filter"] }
walkdir = "=2.5.0"
