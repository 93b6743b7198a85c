[package]
name = "engram"
version = "0.1.0"
edition = "2021"
publish = false

[dependencies]
anyhow = "=1.0.104"
candle-core = "=0.8.4"
candle-nn = "=0.8.4"
candle-transformers = "=0.8.4"
chrono = "=0.4.45"
dirs = "=7.0.0"
gix = { version = "=0.90.0", default-features = false, features = ["blob-diff", "revision", "sha1"] }
hf-hub = { version = "0.4", default-features = false, features = ["ureq"] }
petgraph = "=0.8.3"
rusqlite = { version = "=0.41.1", features = ["bundled"] }
serde = { version = "=1.0.229", features = ["derive"] }
serde_json = "=1.0.154"
tiny_http = "=0.12.0"
tokenizers = { version = "=0.21.4", default-features = false, features = ["fancy-regex"] }
toml = "=1.1.8"
tracing = "=0.1.44"
tracing-subscriber = { version = "0.3", features = ["env-filter"] }
uuid = { version = "=1.29.0", features = ["v4"] }

[dev-dependencies]
tempfile = "=3.27.0"
