[package]
name = "mls_ds"
version = "0.1.0"
edition = "2021"
publish = false

[dependencies]
openmls = "=0.9.0"
openmls_rust_crypto = "=0.6.0"
uuid = { version = "=1.27.0", features = ["v4", "serde"] }
chrono = { version = "=0.4.45", features = ["serde"] }
sqlx = { version = "=0.8.6", default-features = false, features = ["runtime-tokio", "postgres", "chrono", "uuid"] }
tokio = { version = "1", features = ["rt-multi-thread", "macros"] }
serde = { version = "1", features = ["derive"] }
thiserror = "*"
dotenv = "0.15"
log = "0.4"
pretty_env_logger = "0.5"
