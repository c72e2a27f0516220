[package]
name = "caseboard"
version = "0.1.0"
edition = "2021"
publish = false

[dependencies]
async-trait = "=0.1.92"
base64 = "=0.22.1"
chrono = { version = "=0.4.45", default-features = false, features = ["clock", "serde"] }
directories = "=5.0.1"
keyring = "=3.6.3"
md5 = "=0.7.0"
mdns-sd = "=0.11.5"
quick-xml = "=0.38.4"
regex = "=1.13.1"
reqwest = { version = "=0.12.28", default-features = false, features = ["json", "multipart", "rustls-tls"] }
serde = { version = "=1.0.229", features = ["derive"] }
serde_json = "1"
shellexpand = "=3.1.2"
sqlx = { version = "=0.8.6", default-features = false, features = ["runtime-tokio", "sqlite", "macros", "migrate"] }
thiserror = "=1.0.69"
tokio = { version = "=1.54.1", features = ["full"] }
ureq = { version = "=2.12.1", default-features = false }
uuid = { version = "=1.29.0", features = ["v4"] }
zip = { version = "=2.6.1", default-features = false, features = ["deflate"] }
