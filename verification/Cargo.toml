[package]
name = "chat_relay"
version = "0.1.0"
edition = "2021"
publish = false

[dependencies]
bytes = "=1.12.1"
edge-gpt = "=0.3.5"
ezio = "=0.1.2"
hex = "=0.4.3"
isolang = "=2.4.0"
libaes = "=0.7.0"
rand = "=0.8.8"
redis = { version = "=0.23.5", features = ["tokio-comp"] }
reqwest = { version = "=0.11.27", default-features = false, features = ["json", "multipart"] }
serde = { version = "=1.0.229", features = ["derive"] }
serde_json = "=1.0.154"
# teloxide takes any takecell 0.1; from 0.1.2 on it needs Rust 1.96.
takecell = "=0.1.1"
teloxide = { version = "=0.12.2", default-features = false }
tokio = { version = "=1.54.1", features = ["macros", "rt-multi-thread", "sync", "time"] }

[dev-dependencies]
regex = "=1.13.1"
