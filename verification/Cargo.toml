[package]
name = "tmml"
version = "0.1.0"
edition = "2021"
publish = false

[dependencies]
sha1 = "0.10"
hex = "0.4"
base64 = "0.22"
uuid = { version = "1", features = ["v4"] }
time = { version = "0.3", features = ["formatting", "local-offset", "macros"] }
png = "*"
serde = { version = "1", features = ["derive"] }
serde_json = "1"
anyhow = "1"
directories = "*"
zip = "*"
reqwest = { version = "0.12", default-features = false, features = ["rustls-tls", "stream"] }
tokio = { version = "1", features = ["full"] }
futures-util = "0.3"
portable-pty = "*"
system-theme = "*"
tracing = "0.1"
tracing-subscriber = { version = "0.3", features = ["env-filter"] }
