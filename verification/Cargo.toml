[package]
name = "xvmlib"
version = "0.1.0"
edition = "2021"
publish = false

[dependencies]
indexmap = { version = "2", features = ["serde"] }
serde = { version = "1", features = ["derive"] }
serde_yaml = "0.9"
clap = "4"
anyhow = "1"
colored = "2"
once_cell = "1"
