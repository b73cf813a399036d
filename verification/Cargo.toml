[package]
name = "fetch-mcp-rs"
version = "0.1.0"
edition = "2021"
publish = false

[dependencies]
html2md = "=0.2.17"
reqwest = { version = "=0.12.28", default-features = false, features = ["rustls-tls", "charset", "http2"] }
rmcp = { version = "=1.8.0", features = ["server", "macros", "transport-io", "schemars"] }
schemars = "1"
serde = { version = "1", features = ["derive"] }
serde_json = "1"
texting_robots = "=0.2.2"
tokio = { version = "1", features = ["macros", "rt-multi-thread", "io-std", "time"] }
tracing-subscriber = { version = "0.3", features = ["env-filter", "fmt"] }
