[package]
name = "factor_bench"
version = "0.1.0"
edition = "2021"
publish = false

[dependencies]
lambda_runtime = { version = "*", features = ["graceful-shutdown", "concurrency-tokio"] }
serde = { version = "1", features = ["derive"] }
serde_json = "1"
tokio = { version = "1", features = ["macros", "rt-multi-thread"] }
tracing = "0.1"
tracing-subscriber = { version = "0.3", features = ["fmt", "json", "env-filter"] }
