[package]
name = "hcaptcha_solver"
version = "0.1.0"
edition = "2021"
publish = false

[dependencies]
cached = { version = "0.43", default-features = false }
image = { version = "0.24", default-features = false, features = ["jpeg", "png"] }
reqwest = { version = "0.12", default-features = false, features = ["rustls-tls"] }
rocket = { version = "0.5", default-features = false, features = ["json"] }
serde = { version = "1", features = ["derive"] }
serde_json = "1"
serde_yaml = "0.9"
shuttle-rocket = "*"
shuttle-runtime = { version = "*", default-features = false }
smallvec = "1"
thiserror = "1"
tokio = { version = "1", features = ["rt-multi-thread", "sync", "time"] }
tracing = "0.1"
tract-onnx = { version = "*", default-features = false }
