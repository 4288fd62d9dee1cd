[package]
name = "stattracker"
version = "0.1.0"
edition = "2021"
publish = false

[dependencies]
reqwest = { version = "=0.11.27", default-features = false, features = ["json", "rustls-tls"] }
rusqlite = "=0.31.0"
serde = { version = "=1.0.229", features = ["derive"] }
serde_json = "=1.0.154"
toml = "=0.8.23"
auto-launch = "=0.5.0"
rfd = { version = "=0.14.1", default-features = false, features = ["xdg-portal", "tokio"] }
