[package]
name = "richat_shm"
version = "0.1.0"
edition = "2021"
publish = false

[dependencies]
agave-geyser-plugin-interface = "3"
anyhow = "1"
clap = { version = "4", features = ["derive"] }
futures = "0.3"
kanal = "*"
log = "0.4"
memmap2 = "0.9"
rustls = { version = "0.23", default-features = false, features = ["aws_lc_rs", "std"] }
serde = { version = "1", features = ["derive"] }
solana-clock = "3"
solana-logger = "3"
solana-message = "3"
thiserror = "2"
tikv-jemallocator = "*"
tokio = { version = "1", features = ["rt-multi-thread", "macros", "time", "sync"] }
tokio-util = "0.7"
tracing = "0.1"
