[package]
name = "openapi_discovery"
version = "0.1.0"
edition = "2021"
publish = false

[dependencies]
chrono = { version = "=0.4.45", features = ["serde"] }
serde = { version = "*", features = ["derive"] }
serde_json = "=1.0.151"
serde_yaml = "=0.9.34"
urlencoding = "=2.1.3"
scalar_api_reference = "=0.2.11"
kube = { version = "=3.1.0", features = ["runtime", "client"] }
k8s-openapi = { version = "=0.27.1", features = ["latest"] }
reqwest = { version = "*", default-features = false, features = ["rustls-tls"] }
tokio = { version = "*", features = ["full"] }
futures = "*"
axum = "*"
tower = "*"
tower-http = { version = "*", features = ["cors", "trace"] }
tracing = "*"
tracing-subscriber = { version = "*", features = ["env-filter"] }
