[package]
name = "sizetrail"
version = "0.1.1"
edition = "2021"
publish = false

[dependencies]
serde = { version = "1", features = ["derive"] }
serde_json = "1"
toml = "*"
clap = "4"
clap_complete = "4"
