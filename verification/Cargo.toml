[package]
name = "semantic-search-lite"
version = "0.1.0"
edition = "2021"
publish = false

[dependencies]
anyhow = "=1.0.104"
bincode = { version = "=2.0.1", features = ["serde"] }
chrono = "=0.4.45"
clap = { version = "=4.6.7", features = ["derive"] }
dirs = "=6.0.0"
fuzzy-matcher = "=0.3.7"
ndarray = "=0.17.2"
ort = { version = "=2.0.0-rc.15", default-features = false, features = ["std", "ndarray"] }
rayon = "=1.12.0"
serde = { version = "=1.0.229", features = ["derive"] }
serde_json = "=1.0.154"
tokenizers = { version = "=0.21.4", default-features = false, features = ["onig"] }
tracing = "=0.1.44"
tracing-subscriber = { version = "=0.3.23", features = ["env-filter"] }
