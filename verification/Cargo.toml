[package]
name = "smtpvoid"
version = "0.1.0"
edition = "2021"
publish = false

[dependencies]
anyhow = "=1.0.104"
argon2 = { version = "=0.5.3", features = ["std"] }
axum = "=0.8.9"
base64 = "=0.22.1"
instant-acme = { version = "=0.8.5", default-features = false, features = ["ring", "hyper-rustls"] }
mail-parser = "=0.11.9"
rand = "=0.8.8"
rcgen = { version = "=0.13.2", default-features = false, features = ["pem", "ring", "x509-parser"] }
rusqlite = { version = "=0.41.1", features = ["bundled"] }
rustls = { version = "=0.23.46", default-features = false, features = ["ring", "std", "tls12", "logging"] }
rustls-pemfile = "=2.2.0"
serde = { version = "=1.0.229", features = ["derive"] }
serde_json = "=1.0.154"
time = { version = "=0.3.55", features = ["formatting"] }
tokio = { version = "=1.54.1", features = ["full"] }
tokio-rustls = { version = "=0.26.6", default-features = false, features = ["ring", "tls12", "logging"] }
tracing = "=0.1.44"
tracing-subscriber = { version = "=0.3.23", features = ["env-filter"] }
