[package]
name = "cctx"
version = "0.1.0"
edition = "2021"
publish = false

[dependencies]
anyhow = "1"
chrono = "0.4"
clap = { version = "4", features = ["derive"] }
clap_complete = "4"
colored = "2"
dialoguer = { version = "0.11", features = ["fuzzy-select"] }
dirs = "5"
serde = { version = "1", features = ["derive"] }
serde_json = "1"
which = "6"
