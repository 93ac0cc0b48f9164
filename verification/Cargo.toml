[package]
name = "mcp-core"
version = "0.1.0"
edition = "2021"
publish = false

[dependencies]
rmcp = { version = "=1.8.0", features = ["server", "client", "transport-child-process", "transport-streamable-http-server", "transport-streamable-http-client-reqwest"] }
axum = "=0.8.9"
axum-extra = { version = "=0.12.6", features = ["cookie-signed"] }
tokio = { version = "=1.54.1", features = ["full"] }
serde = { version = "=1.0.229", features = ["derive"] }
serde_json = "=1.0.154"
base64 = "=0.22.1"
getrandom = "=0.3.4"
subtle = "=2.6.1"
