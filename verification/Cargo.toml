[package]
name = "rag_core"
version = "0.1.0"
edition = "2021"
publish = false

[dependencies]
uuid = { version = "=1.27.0", features = ["v4"] }
tokio = { version = "*", features = ["full"] }
warp = { version = "=0.4.3", features = ["server", "websocket", "multipart"] }
futures = "*"
sqlx = { version = "=0.9.0", features = ["runtime-tokio", "tls-rustls", "postgres", "chrono", "json"] }
pgvector = { version = "=0.4.2", features = ["sqlx"] }
serde = { version = "*", features = ["derive"] }
serde_json = "*"
anyhow = "*"
chrono = "*"
toml = "*"
pdf-extract = "*"
async-openai = { version = "=0.42.1", features = ["chat-completion", "embedding"] }
