[package]
name = "evm_indexer"
version = "0.1.0"
edition = "2021"
publish = false

[dependencies]
chrono = "=0.4.45"
ethabi = "=18.0.0"
hex = "=0.4.3"
web3 = "=0.19.0"
mongodb = "=3.9.1"
tokio = { version = "=1.53.2", features = ["full"] }
futures = "=0.3.34"
serde = { version = "=1.0.229", features = ["derive"] }
serde_json = "=1.0.151"
dotenv = "=0.15.0"
warp = { version = "=0.4.3", features = ["server"] }
prometheus = "=0.14.0"
lazy_static = "=1.5.1"
thiserror = "=2.0.21"
tracing = "=0.1.44"
backoff = { version = "=0.4.0", features = ["tokio"] }
async-stream = "=0.3.6"
