[package]
name = "kv_rdma_message"
version = "0.1.0"
edition = "2021"
publish = false

[dependencies]
bytes = "1"
clippy-utilities = "*"
async-rdma = "*"
async-trait = "0.1"
tokio = { version = "1", features = ["sync", "rt", "macros", "time"] }
tracing = "0.1"
