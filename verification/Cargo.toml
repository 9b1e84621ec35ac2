[package]
name = "congal"
version = "0.1.0"
edition = "2021"
publish = false

[dependencies]
regex = "1"
html-escape = "0.2"
encoding_rs = "0.8"
chrono = "0.4"
anyhow = "1"
serde = { version = "1", features = ["derive"] }
serde_json = "1"
reqwest = { version = "0.12", default-features = false, features = ["blocking", "rustls-tls", "cookies", "gzip"] }
rusqlite = { version = "*", features = ["bundled", "functions"] }
spreadsheet-ods = "*"
scraper = "*"
directories = "*"
