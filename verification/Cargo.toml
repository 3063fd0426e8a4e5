[package]
name = "dip_log_record"
version = "0.1.0"
edition = "2021"
publish = false

[dependencies]
indexmap = { version = "*", features = ["serde"] }
indicatif = "*"
log = "*"
regex = "*"
serde = { version = "*", features = ["derive"] }
serde_json = "*"
