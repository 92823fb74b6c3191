[package]
name = "interlink"
version = "0.8.0"
edition = "2021"
publish = false

[dependencies]
anyhow = "1"
axum = "=0.8.9"
base64 = "=0.22.1"
clap = { version = "=4.6.7", features = ["derive", "env"] }
dashmap = "=6.2.1"
ed25519-dalek = "=2.2.0"
fs2 = "=0.4.3"
getrandom = "=0.3.4"
hyper = "1"
hyper-util = { version = "0.1", features = ["server-auto", "service", "tokio"] }
rcgen = "0.14"
redb = "=3.1.3"
reqwest = { version = "=0.12.28", default-features = false, features = ["blocking", "json", "rustls-tls"] }
rmcp = { version = "=3.8.0", features = ["server", "transport-io", "macros"] }
schemars = "=1.2.3"
serde = { version = "1", features = ["derive"] }
serde_json = "=1.0.154"
tokio = { version = "=1.54.1", features = ["full"] }
tokio-rustls = { version = "0.26", default-features = false, features = ["ring"] }
tower-service = "0.3"
tracing = "0.1"
tracing-subscriber = { version = "0.3", features = ["env-filter"] }

[dev-dependencies]
tempfile = "=3.27.0"
