[package]
name = "cc_sync"
version = "0.1.0"
edition = "2021"
publish = false

[dependencies]
darklua = "=0.19.0"
flate2 = "=1.1.10"
base85 = "=2.0.0"
lz4_flex = "=0.14.0"
serde = { version = "=1.0.229", features = ["derive"] }
ron = "=0.12.2"
ohkami = { version = "=0.24.9", features = ["rt_tokio", "ws"] }
tokio = { version = "=1.53.2", features = ["full"] }
notify = "=8.2.0"
parking_lot = "=0.12.5"
walkdir = "=2.5.0"

[dev-dependencies]
rand = "=0.10.3"
rmp = "=0.8.15"
