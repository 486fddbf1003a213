[package]
name = "prism"
version = "0.1.0"
edition = "2021"
publish = false

[dependencies]
anyhow = "=1.0.104"
async-trait = "=0.1.92"
calamine = "=0.38.0"
converge-optimization = "=3.8.1"
converge-pack = "=3.8.1"
# converge-core 3.8.1, which converge-optimization builds on, depends on
# converge-provider; pinned so that it stays on the same 3.8.1 release.
converge-provider = "=3.8.1"
polars = { version = "=0.55.2", default-features = false, features = ["lazy", "csv", "parquet"] }
serde = { version = "=1.0.229", features = ["derive"] }
serde_json = "=1.0.154"
tracing = "=0.1.44"
