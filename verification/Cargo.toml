[package]
name = "pecs_registry"
version = "0.1.0"
edition = "2021"
publish = false

[dependencies]
async-trait = "=0.1.92"
etcd-client = "=0.21.1"
futures-core = "=0.3.34"
reqwest = { version = "=0.13.5", default-features = false, features = ["json", "form", "query"] }
serde = { version = "=1.0.229", features = ["derive"] }
serde_json = "=1.0.154"
thiserror = "=2.0.21"
tokio = { version = "=1.54.1", features = ["full"] }
tokio-stream = { version = "=0.1.19", features = ["sync"] }
tokio-util = "=0.7.20"
tonic = "=0.14.9"
tower = { version = "=0.5.3", features = ["discover"] }
tracing = "=0.1.44"
