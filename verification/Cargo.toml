[package]
name = "advent"
version = "0.1.0"
edition = "2021"
publish = false

[dependencies]
anyhow = "1"
clap = { version = "4", features = ["derive", "env"] }
env_logger = "0.11"
log = "0.4"
ndarray = "0.16"
regex = "1"
reqwest = { version = "0.12", features = ["blocking", "cookies"] }
serde = { version = "1", features = ["derive"] }
