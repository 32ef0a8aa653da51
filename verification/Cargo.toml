[package]
name = "tcgscan"
version = "0.1.0"
edition = "2021"
publish = false

[dependencies]
anyhow = "1"
bytes = "1"
clap = { version = "4", features = ["derive"] }
deadpool = "0.12"
diesel = { version = "2", features = ["sqlite"] }
dotenvy = "0.15"
env_logger = "0.11"
fantoccini = "0.21"
futures = "0.3"
indicatif = "0.17"
keyed_priority_queue = "0.4"
opencv = "0.93"
rayon = "1"
reqwest = "0.12"
serde = "1"
serde_derive = "1"
serde_json = "1"
tokio = { version = "1", features = ["full"] }
tracing = "0.1"
tracing-subscriber = "0.3"
