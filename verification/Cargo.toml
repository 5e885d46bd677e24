[package]
name = "depi"
version = "0.1.0"
edition = "2021"
publish = false

[dependencies]
anyhow = "1"
clap = { version = "4", features = ["derive"] }
colored = "*"
env_logger = "*"
futures = "0.3"
libc = "0.2"
log = "0.4"
once_cell = "1"
rand = "0.9"
reqwest = "*"
serde_json = "1"
tokio = { version = "1", features = ["macros", "rt-multi-thread"] }
toml = "*"
