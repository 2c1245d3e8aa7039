[package]
name = "semindex"
version = "0.1.0"
edition = "2021"
publish = false

[dependencies]
text-splitter = { version = "=0.33.0", features = ["markdown", "tokenizers"] }
tokenizers = "=0.23.2"
candle-core = "=0.11.0"
candle-nn = "=0.11.0"
candle-transformers = "=0.11.0"
serde = { version = "1", features = ["derive"] }
serde_json = "1"
