[package]
name = "vinter"
version = "0.1.0"
edition = "2021"
publish = false

[dependencies]
anyhow = "1"
clap = { version = "3", features = ["derive"] }
futures-executor = { version = "0.3", features = ["thread-pool"] }
num_cpus = "1"
serde = { version = "1", features = ["derive"] }
serde_json = "1"
tokio = { version = "1", features = ["macros", "rt", "rt-multi-thread", "sync"] }
walkdir = "2"
xattr = "1"
