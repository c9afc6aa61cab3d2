[package]
name = "keiko_ingestion"
version = "0.1.0"
edition = "2021"
publish = false

[dependencies]
tiktoken-rs = "=0.12.1"
uuid = { version = "=1.29.0", features = ["v4"] }
scraper = "=0.29.0"
docx-rs = "=0.4.22"
lopdf = "=0.46.0"
pdf-extract = "=0.12.1"
reqwest = { version = "=0.12.28", default-features = false, features = ["json"] }
serde = { version = "=1.0.229", features = ["derive"] }
tokio = { version = "=1.54.1", features = ["rt-multi-thread", "macros", "net", "time"] }
axum = { version = "=0.7.9", features = ["multipart"] }
tonic = "=0.12.3"
prost = "=0.13.5"
tower-http = { version = "=0.5.2", features = ["cors", "trace"] }
tracing = "=0.1.44"
tracing-subscriber = { version = "=0.3.23", features = ["env-filter"] }
anyhow = "=1.0.104"
dotenvy = "=0.15.7"
futures = "=0.3.34"
tokio-stream = { version = "=0.1.19", features = ["net"] }
thiserror = "=1.0.69"
