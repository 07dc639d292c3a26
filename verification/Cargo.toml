[package]
name = "workspace_fs"
version = "0.1.0"
edition = "2021"
publish = false

[dependencies]
mime_guess = "2"
time = { version = "0.3", features = ["formatting"] }
toml = "0.8"
serde = { version = "1", features = ["derive"] }
serde_json = "1"
anyhow = "1"
camino = "1"
axum = "0.8"
tokio = { version = "1", features = ["macros", "rt-multi-thread", "net", "fs", "process", "signal", "sync", "time", "io-util", "io-std"] }
tower-http = { version = "0.6", features = ["trace"] }
tracing = "0.1"
tracing-subscriber = { version = "0.3", features = ["env-filter"] }
reqwest = { version = "0.12", default-features = false }
