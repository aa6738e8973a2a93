[package]
name = "kz_login"
version = "0.1.0"
edition = "2021"
publish = false

[dependencies]
regex = "=1.13.1"
serde = { version = "=1.0.229", features = ["derive"] }
serde_json = { version = "=1.0.154", features = ["raw_value"] }
des = "=0.8.1"
cipher = "=0.4.4"
hex = "=0.4.3"
sha2 = "=0.10.9"
chrono = "=0.4.45"
url = "=2.5.8"
cookie_store = "=0.22.1"
reqwest_cookie_store = "=0.10.0"
reqwest = { version = "=0.13.5", default-features = false, features = ["cookies", "json", "form", "query", "rustls-no-provider"] }
tokio = { version = "=1.54.1", features = ["rt-multi-thread", "macros", "time", "sync"] }
