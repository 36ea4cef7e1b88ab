[package]
name = "corpus_cleaner"
version = "0.1.0"
edition = "2021"
publish = false

[dependencies]
anyhow = "*"
clap = { version = "*", features = ["derive"] }
dashmap = "*"
env_logger = "*"
indicatif = "*"
rayon = "*"
serde_json = "*"
sha2 = "*"
tokio = { version = "*", features = ["macros", "rt-multi-thread"] }
