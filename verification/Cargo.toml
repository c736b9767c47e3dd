[package]
name = "rollout_controller"
version = "0.1.0"
edition = "2021"
publish = false

[dependencies]
base64 = "0.22"
chrono = "0.4"
env_logger = "0.11"
futures = "0.3"
k8s-openapi = { version = "0.26", features = ["latest"] }
kube = { version = "2", features = ["runtime"] }
log = "0.4"
reqwest = { version = "0.12", default-features = false, features = ["json", "rustls-tls"] }
serde_json = "1"
sha2 = "0.10"
tokio = { version = "1", features = ["macros", "rt-multi-thread", "time"] }
