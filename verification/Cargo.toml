[package]
name = "melt"
version = "0.1.0"
edition = "2021"
publish = false

[dependencies]
actix-web = "4"
ahash = "0.8"
anyhow = "1"
arrow-arith = "49"
arrow-array = "49"
arrow-buffer = "49"
arrow-cast = "49"
arrow-ipc = "49"
arrow-json = "49"
arrow-schema = { version = "49", features = ["serde"] }
bytes = "1"
chrono = "=0.4.38"
datafusion = { version = "34", default-features = false, features = ["parquet"] }
env_logger = "0.10"
log = "0.4"
parquet = { version = "49", default-features = false, features = ["arrow", "snap"] }
serde = { version = "1", features = ["derive"] }
serde_json = "1"
tokio = { version = "1", features = ["fs", "macros", "rt-multi-thread"] }
