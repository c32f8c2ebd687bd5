[package]
name = "chennix"
version = "0.1.0"
edition = "2021"
publish = false

[dependencies]
serde_json = "=1.0.154"
chrono = "=0.4.45"
rand = "=0.8.8"
uuid = { version = "=1.29.0", features = ["v4"] }
bcrypt = "=0.15.1"
evalexpr = "=12.0.3"
axum = "=0.7.9"
tokio = { version = "=1.54.1", features = ["full"] }
reqwest = { version = "=0.12.28", default-features = false, features = ["json", "stream", "rustls-tls"] }
rusqlite = { version = "=0.31.0", features = ["bundled"] }
serde = { version = "=1.0.229", features = ["derive"] }
serde_yaml = "0.9"
tower-http = { version = "=0.5.2", features = ["cors", "trace"] }
tracing = "=0.1.44"
tracing-subscriber = { version = "=0.3.23", features = ["env-filter"] }
bytes = "=1.12.1"
futures-util = "=0.3.34"
mime_guess = "=2.0.5"
