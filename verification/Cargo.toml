[package]
name = "kubizone"
version = "0.1.0"
edition = "2021"
publish = false

[dependencies]
time = "=0.3.55"
kube = { version = "=3.1.0", features = ["runtime", "derive"] }
k8s-openapi = { version = "=0.27.1", features = ["latest"] }
serde = { version = "=1.0.229", features = ["derive"] }
serde_json = "=1.0.154"
serde_yaml = "=0.9.34"
schemars = "=1.2.3"
tokio = { version = "=1.54.1", features = ["macros", "rt"] }
futures = "=0.3.34"
clap = { version = "=4.6.7", features = ["derive"] }
tracing = "=0.1.44"
tracing-subscriber = "=0.3.23"
