[package]
name = "canzero_server"
version = "0.1.0"
edition = "2021"
publish = false

[dependencies]
bincode = "=1.3.3"
serde = { version = "1", features = ["derive"] }
clap = { version = "4", features = ["derive"] }
color-print = "0.3"
crossbeam = "0.8"
futures = "0.3"
tokio = { version = "1", features = ["full"] }
whoami = "1"
