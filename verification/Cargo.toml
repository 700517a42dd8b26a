[package]
name = "hypai_ants"
version = "0.1.0"
edition = "2021"
publish = false

[dependencies]
audio-codec-algorithms = "=0.8.1"
serde = { version = "=1.0.229", features = ["derive"] }
serde_json = "=1.0.154"
tokio = { version = "=1.54.1", features = ["full"] }
axum = { version = "=0.7.9", features = ["ws"] }
reqwest = { version = "=0.12.28", default-features = false, features = ["json", "blocking", "rustls-tls"] }
tokio-tungstenite = "=0.21.0"
futures = "=0.3.34"
futures-util = "=0.3.34"
base64 = "=0.22.1"
rubato = "=0.15.0"
iceoryx2 = { version = "=0.6.1", features = ["libc_platform"] }
iceoryx2-bb-system-types = "=0.6.1"
iceoryx2-bb-container = "=0.6.1"
once_cell = "=1.21.4"
