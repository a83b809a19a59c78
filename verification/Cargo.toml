[package]
name = "csml_engine"
version = "0.1.0"
edition = "2021"
publish = false

[dependencies]
chrono = "=0.4.45"
rand = "=0.8.8"
rusoto_core = { version = "=0.47.0", default-features = false, features = ["rustls"] }
rusoto_dynamodb = { version = "=0.47.0", default-features = false, features = ["rustls"] }
serde = { version = "1", features = ["derive"] }
serde_dynamodb = { version = "=0.9.0", default-features = false, features = ["rustls"] }
serde_json = "=1.0.151"
tokio = { version = "=1.53.2", features = ["rt-multi-thread"] }
