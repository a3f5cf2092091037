[package]
name = "toolflow"
version = "0.1.0"
edition = "2021"
publish = false

[dependencies]
regex = "*"
url = "*"
serde = { version = "*", features = ["derive"] }
serde_json = "*"
clap = "*"
tokio = { version = "*", features = ["full"] }
reqwest = { version = "*", default-features = false, features = ["rustls-tls", "json", "gzip"] }
mysql_async = { version = "*", default-features = false }
mediawiki = "*"
toolforge = "*"
csv = "*"
futures = "*"
uuid = { version = "*", features = ["v4"] }
anyhow = "*"
