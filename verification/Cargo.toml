[package]
name = "subgraph_fetch"
version = "0.1.0"
edition = "2021"
publish = false

[dependencies]
apollo-compiler = "*"
hex = "*"
serde_json_bytes = "*"
serde = { version = "*", features = ["derive"] }
tokio = { version = "*", features = ["sync", "rt"] }
http = "*"
