[package]
name = "hommedefer"
version = "0.1.9"
edition = "2021"
publish = false

[dependencies]
clap = { version = "=4.6.7", features = ["derive"] }
notify = "=6.1.1"
rocket = "=0.5.2"
serde-xml-rs = "=0.6.0"
tokio = { version = "=1.54.1", features = ["full"] }

[dev-dependencies]
regex = "=1.13.1"
