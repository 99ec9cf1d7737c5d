[package]
name = "roost"
version = "0.1.0"
edition = "2021"
publish = false

[dependencies]
axum = { version = "=0.8.9", features = ["ws", "multipart"] }
axum-server = { version = "=0.7.3", features = ["tls-rustls-no-provider"] }
bollard = "=0.18.1"
bzip2 = "=0.4.4"
chrono = { version = "=0.4.45", default-features = false, features = ["std", "clock"] }
flate2 = "=1.1.10"
futures-util = "=0.3.34"
ipnet = "=2.12.2"
jsonwebtoken = "=9.3.1"
lz4_flex = "=0.11.6"
regex = "=1.13.1"
reqwest = { version = "=0.12.28", default-features = false, features = ["json", "stream", "rustls-tls"] }
rusqlite = { version = "=0.32.1", features = ["bundled"] }
russh = { version = "=0.65.0", default-features = false, features = ["ring", "rsa"] }
russh-sftp = "=2.4.0"
serde = { version = "=1.0.229", features = ["derive"] }
serde_json = { version = "=1.0.154", features = ["raw_value"] }
serde_yaml = "=0.9.34"
sevenz-rust = "=0.6.1"
sha1 = "=0.10.7"
sha2 = "=0.10.9"
subtle = "=2.6.1"
tar = "=0.4.46"
tokio = { version = "=1.54.1", features = ["full"] }
url = "=2.5.8"
uuid = { version = "=1.29.0", features = ["v4"] }
xmltree = "=0.11.0"
xz2 = "=0.1.7"
zip = { version = "=2.6.1", default-features = false, features = ["deflate"] }
zstd = "=0.13.4"
