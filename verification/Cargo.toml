[package]
name = "gdrivexp"
version = "0.1.0"
edition = "2021"
publish = false

[dependencies]
uuid = { version = "1", features = ["v4"] }
libc = "0.2"
anyhow = "1"
thiserror = "1"
tokio = { version = "1", features = ["full"] }
futures-util = "0.3"
fuse3 = { version = "0.8", features = ["tokio-runtime", "unprivileged"] }
sqlx = { version = "0.7", default-features = false, features = ["runtime-tokio", "sqlite"] }
tracing = "0.1"
tracing-subscriber = "0.3"
serde = { version = "1", features = ["derive"] }
serde_json = "1"
bincode = "1"
reqwest = { version = "0.11", default-features = false, features = ["json", "rustls-tls"] }
google-drive3 = "5"
