[package]
name = "base-mlx"
version = "0.1.0"
edition = "2021"
publish = false

[dependencies]
anyhow = "=1.0.104"
async-trait = "=0.1.92"
axum = "=0.7.9"
clap = { version = "=4.6.7", features = ["derive"] }
dirs = "=5.0.1"
futures = "=0.3.34"
hf-hub = { version = "=0.4.3", default-features = false, features = ["tokio", "rustls-tls"] }
mlx-rs = "=0.25.3"
mlx-sys = "=0.2.0"
safetensors = "=0.4.5"
serde = { version = "=1.0.229", features = ["derive"] }
serde_json = "=1.0.154"
thiserror = "=1.0.69"
tokenizers = { version = "=0.20.4", default-features = false, features = ["unstable_wasm"] }
tokio = { version = "=1.54.1", features = ["macros", "rt-multi-thread", "net", "sync"] }
tokio-stream = "=0.1.19"
tracing = "=0.1.44"
tracing-subscriber = { version = "=0.3.23", features = ["env-filter"] }
uuid = { version = "=1.29.0", features = ["v4"] }
