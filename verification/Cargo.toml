[package]
name = "dozer_core"
version = "0.1.0"
edition = "2021"
publish = false

[dependencies]
heck = "0.4"
crossbeam = "0.8"
serde = { version = "1", features = ["derive"] }
serde_yaml = "0.9"
clap = { version = "4", features = ["derive"] }
prettytable-rs = "0.10"
