[package]
name = "rust_ollama"
version = "0.1.0"
edition = "2021"
publish = false

[dependencies]
anyhow = "*"
candle-core = "*"
candle-transformers = "*"
chrono = "*"
clap = { version = "*", features = ["derive"] }
serde = { version = "*", features = ["derive"] }
tokenizers = "*"
tokio = { version = "*", features = ["sync", "rt-multi-thread", "macros", "time"] }
uuid = { version = "*", features = ["v4"] }
