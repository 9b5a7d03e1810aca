[package]
name = "claude_gemini_proxy"
version = "0.1.0"
edition = "2021"
publish = false

[dependencies]
uuid = { version = "*", features = ["v4"] }
serde = { version = "*", features = ["derive"] }
serde_json = "*"
tokio = { version = "*", features = ["rt-multi-thread", "macros", "net"] }
axum = "*"
reqwest = { version = "*", default-features = false, features = ["stream", "rustls-tls"] }
futures = "*"
bytes = "*"
clap = { version = "*", features = ["derive"] }
thiserror = "*"
tracing = "*"
tracing-subscriber = "*"
lazy_static = "*"
