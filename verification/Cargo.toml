[package]
name = "titan"
version = "0.1.0"
edition = "2021"
publish = false

[dependencies]
serde_json = "=1.0.151"
jsonwebtoken = { version = "=11.1.0", default-features = false, features = ["rust_crypto"] }
anyhow = "*"
axum = "*"
bcrypt = "*"
bytes = "*"
crossbeam = "*"
dashmap = "*"
deadpool-postgres = "*"
dotenvy = "*"
libloading = "*"
num_cpus = "*"
oxc = { version = "=0.139.0", features = ["semantic"] }
reqwest = { version = "*", default-features = false, features = ["rustls-tls"] }
serde = { version = "*", features = ["derive"] }
smallvec = "*"
tokio = { version = "*", features = ["full"] }
tokio-postgres = "*"
walkdir = "*"
