[package]
name = "github_tools"
version = "0.1.0"
edition = "2021"
publish = false

[dependencies]
anyhow = "1"
charming = "0.4"
chrono = "0.4"
clap = { version = "4", features = ["derive"] }
csv = "1"
dotenvy = "0.15"
regex = "1"
reqwest = { version = "0.12", default-features = false, features = ["blocking", "json", "rustls-tls"] }
rusqlite = { version = "0.32", features = ["bundled"] }
semver = "1"
serde = { version = "1", features = ["derive"] }
serde_json = { version = "1", features = ["preserve_order"] }
urlencoding = "2"
