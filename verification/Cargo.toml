[package]
name = "snakerobots"
version = "0.1.0"
edition = "2021"
publish = false

[dependencies]
rand = "0.10.3"
uuid = { version = "1.29.0", features = ["v4", "serde"] }
validator = { version = "0.21.0", features = ["derive"] }
chrono = { version = "0.4.45", features = ["serde"] }
serde = { version = "1.0.229", features = ["derive"] }
serde_json = "1.0.154"
eyre = "*"
thiserror = "*"
tokio = { version = "*", features = ["rt-multi-thread", "macros", "sync", "time", "signal", "net"] }
tokio-util = "*"
tracing = "*"
tracing-subscriber = { version = "*", features = ["env-filter", "fmt"] }
dotenvy = "*"
axum = "*"
tower = { version = "*", features = ["util"] }
tower-http = { version = "*", features = ["trace", "validate-request"] }
sqlx = { version = "*", default-features = false, features = ["runtime-tokio", "postgres", "uuid", "chrono", "json", "macros", "derive"] }
