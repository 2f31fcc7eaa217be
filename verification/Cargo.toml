[package]
name = "aleym_core"
version = "0.1.0"
edition = "2021"
publish = false

[dependencies]
uuid = { version = "=1.29.0", features = ["v4"] }
rand = "=0.10.3"
url = "=2.5.8"
feed-rs = { version = "=3.0.0", features = ["sanitize"] }
unescaper = "=0.2.0"
ammonia = "=4.2.4"
scraper = "=0.29.0"
time = { version = "=0.3.55", features = ["parsing", "formatting", "macros"] }
chrono = "=0.4.45"
serde = { version = "=1.0.229", features = ["derive"] }
serde_json = "=1.0.154"
schemars = "=1.2.3"
thiserror = "=2.0.21"
tracing = "=0.1.44"
async-trait = "=0.1.92"
tokio = { version = "=1.54.1", features = ["full"] }
hyper = { version = "=1.12.0", features = ["client", "http1", "http2"] }
hyper-util = { version = "=0.1.21", features = ["tokio"] }
http-body-util = "=0.1.5"
sea-orm = { version = "=2.0.4", features = ["sqlx-sqlite", "runtime-tokio-rustls"] }
sea-orm-migration = { version = "=2.0.4", default-features = false, features = ["sqlx-sqlite", "runtime-tokio-rustls"] }
