[package]
name = "ring_cli"
version = "0.1.0"
edition = "2021"
publish = false

[dependencies]
anyhow = "1"
clap = { version = "4", features = ["string"] }
clap_complete = "4"
dirs = "6"
reqwest = { version = "0.12", default-features = false }
serde = { version = "1", features = ["derive"] }
serde_json = "1"
serde-saphyr = "*"
sha2 = "0.10"
thiserror = "2"
tokio = { version = "1", features = ["rt-multi-thread"] }
