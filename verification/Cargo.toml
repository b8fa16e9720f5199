[package]
name = "roundhouse"
version = "0.1.0"
edition = "2021"
publish = false

[dependencies]
chrono = "0.4"
fastrand = "2"
serde = { version = "1", features = ["derive"] }
serde_with = "3"
axum = "0.8"
axum-extra = { version = "0.10", features = ["cookie"] }
askama = "0.12"
reqwest = { version = "0.12", default-features = false, features = ["json", "rustls-tls"] }
prost = "0.13"
cached = { version = "0.54", features = ["async"] }
tokio = { version = "1", features = ["rt-multi-thread", "macros"] }
tower-http = { version = "0.6", features = ["fs", "compression-gzip"] }
csv = "1"
zip = { version = "2", default-features = false, features = ["deflate"] }
tempfile = "3"
tracing = "0.1"
tracing-subscriber = "0.3"
http = "1"
cookie = "0.18"
async-trait = "0.1"
directories = "5"
sea-orm = { version = "1", default-features = false, features = ["macros"] }
sea-orm-migration = { version = "1", default-features = false }
sea-query = "0.32"
