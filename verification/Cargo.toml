[package]
name = "roder_k8s"
version = "0.1.0"
edition = "2021"
publish = false

[dependencies]
time = { version = "*", features = ["formatting", "parsing", "macros"] }
reqwest = { version = "*", default-features = false }
base64 = "*"
flate2 = "*"
serde = { version = "*", features = ["derive"] }
serde_json = "*"
serde_yaml = "*"
thiserror = "*"
tracing = "*"
tokio = { version = "*", features = ["full"] }
futures = "*"
arc-swap = "*"
http = "*"
kube = { version = "*", default-features = false, features = ["client", "runtime", "ws"] }
k8s-openapi = { version = "*", features = ["latest"] }
