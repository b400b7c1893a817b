[package]
name = "artemis"
version = "0.1.0"
edition = "2021"
publish = false

[dependencies]
anyhow = "*"
axum = "*"
chrono = "*"
dotenvy = "*"
reqwest = { version = "*", default-features = false }
rss = "*"
serde = { version = "*", features = ["derive"] }
sqlx = { version = "*", default-features = false, features = ["postgres", "runtime-tokio", "chrono"] }
tokio = { version = "*", features = ["rt-multi-thread", "macros", "time", "net"] }
tower-http = { version = "*", features = ["cors"] }
tracing = "*"
tracing-subscriber = { version = "*", features = ["env-filter", "fmt"] }
