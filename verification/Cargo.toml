[package]
name = "dspy_rs"
version = "0.1.0"
edition = "2021"
publish = false

[dependencies]
anyhow = "1"
async-openai = "0.29"
async-trait = "0.1"
futures = "0.3"
indexmap = "=2.14.2"
pyo3 = { version = "0.27", features = ["abi3-py310", "extension-module"] }
rand = "=0.8.8"
serde = { version = "1", features = ["derive"] }
serde_json = { version = "=1.0.154", features = ["preserve_order"] }
thiserror = "2"
tokio = { version = "1", features = ["rt", "rt-multi-thread", "macros", "sync", "time"] }
tracing = "0.1"
