[package]
name = "lifemaint"
version = "0.1.0"
edition = "2021"
publish = false

[dependencies]
jiff = { version = "=0.2.39", features = ["serde"] }
clap = { version = "=4.6.7", features = ["derive"] }
clap_complete = { version = "4", features = ["unstable-dynamic"] }
serde = { version = "=1.0.229", features = ["derive"] }
serde_json = "=1.0.154"
serde_yaml = "=0.9.34"
toml = "=1.1.8"
thiserror = "=2.0.21"

[dev-dependencies]
tempfile = "=3.27.0"
