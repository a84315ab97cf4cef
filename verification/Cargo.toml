[package]
name = "rango"
version = "0.1.0"
edition = "2021"
publish = false

[dependencies]
hmac = "0.12"
sha2 = "0.10"
bcrypt = "0.15"
serde_urlencoded = "0.7"
uuid = { version = "1", features = ["v4"] }
chrono = "0.4"
rust_decimal = "1"
axum = "0.8"
tokio = { version = "1", features = ["macros", "rt-multi-thread", "net", "sync"] }
sea-orm = { version = "1", default-features = false, features = ["sqlx-sqlite", "runtime-tokio-rustls"] }
tower = "0.5"
tower-http = { version = "0.6", features = ["fs", "catch-panic"] }
tracing = "0.1"
tracing-subscriber = "0.3"
serde = { version = "1", features = ["derive"] }
serde_json = "1"
rpassword = "7"
askama = "0.12"
