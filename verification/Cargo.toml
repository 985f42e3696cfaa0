[package]
name = "memvid"
version = "0.1.0"
edition = "2021"
publish = false

[dependencies]
base64 = "*"
hex = "*"
tantivy = "*"
tantivy-jieba = "*"
serde = { version = "*", features = ["derive"] }
serde_json = "*"
schemars = "*"
rmcp = { version = "*", features = ["server", "macros", "transport-io"] }
tokio = { version = "*", features = ["rt-multi-thread", "macros"] }
