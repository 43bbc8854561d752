[package]
name = "ws_broadcast"
version = "0.1.0"
edition = "2021"
publish = false

[dependencies]
serde_json = "1"
serde = { version = "1", features = ["derive"] }
log = "0.4"
env_logger = "0.7"
futures = "0.3"
tokio = { version = "0.2", features = ["macros", "rt-threaded", "time"] }
lambda_runtime = "0.2"
dynomite = { version = "0.10", default-features = false, features = ["derive", "rustls"] }
rusoto_core = { version = "0.45", default-features = false, features = ["rustls"] }
rusoto_apigatewaymanagementapi = { version = "0.45", default-features = false, features = ["rustls"] }
