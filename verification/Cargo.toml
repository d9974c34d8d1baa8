[package]
name = "tallytail"
version = "0.1.0"
edition = "2021"
publish = false

[dependencies]
rust_decimal = "1"
rand = "0.8"
jiff = "0.2"
serde = { version = "1", features = ["derive"] }
serde_json = "1"
ron = "0.8"
eyre = "0.6"
rusqlite = { version = "*", features = ["bundled", "backup"] }
flate2 = "1"
tempfile = "3"
chrono = "0.4"
reqwest = { version = "0.12", default-features = false, features = ["blocking", "json", "rustls-tls"] }
axum = "0.8"
tokio = { version = "1", features = ["macros", "rt-multi-thread", "net"] }
tower-http = { version = "0.6", features = ["cors", "fs"] }
rustyfinance = "*"
strum = { version = "0.26", features = ["derive"] }
