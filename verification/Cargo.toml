[package]
name = "snapcoin-db-inspector"
version = "0.4.0"
edition = "2021"
publish = false

[dependencies]
anyhow = "1"
axum = { version = "0.8", features = ["ws"] }
bincode = "2"
clap = { version = "4", features = ["derive"] }
futures-util = "0.3"
hex = "0.4"
serde = { version = "1", features = ["derive"] }
serde_json = "1"
sled = "0.34"
snap-coin = "*"
tokio = { version = "1", features = ["full"] }
tower-http = { version = "0.6", features = ["fs"] }
