[package]
name = "dtmgr"
version = "0.1.0"
edition = "2021"
publish = false

[dependencies]
hex = "0.4"
postcard = { version = "1", features = ["use-std"] }
sha3 = "0.10"
serde = { version = "1", features = ["derive"] }
serde_json = "1"
toml = "*"
thiserror = "*"
clap = { version = "4", features = ["derive"] }
