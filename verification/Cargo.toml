[package]
name = "sticker_search"
version = "0.1.0"
edition = "2021"
rust-version = "1.95"
publish = false

[dependencies]
chrono = "=0.4.45"
dptree = "=0.1.2"
itertools = "=0.10.5"
log = "=0.4.34"
pretty_env_logger = "=0.4.0"
sea-orm = { version = "=0.6.0", features = ["sqlx-sqlite", "runtime-tokio-native-tls", "macros"] }
takecell = "=0.1.1"
teloxide = { version = "=0.7.3", features = ["macros"] }
tokio = { version = "=1.54.1", features = ["rt-multi-thread", "macros"] }
tokio-util = { version = "=0.6.10", features = ["codec"] }
