[package]
name = "sancus"
version = "0.1.0"
edition = "2021"
publish = false

[dependencies]
anyhow = "*"
clap = { version = "*", features = ["derive"] }
flexi_logger = "*"
log = "*"
once_cell = "*"
serde = { version = "*", features = ["derive"] }
serde_json = "*"
serde_yaml = "*"
spdx = { version = "*", features = ["text"] }
spdx-rs = "*"
termtree = "*"
