[package]
name = "pueue_bridge"
version = "0.1.0"
edition = "2021"
publish = false

[dependencies]
anyhow = "*"
async-std = "*"
async-trait = "*"
chrono = "*"
ctrlc = "*"
daemonize = "*"
env_logger = "*"
log = "*"
pueue-lib = "*"
serde = { version = "*", features = ["derive"] }
serde_json = "*"
snap = "*"
tide = "*"
