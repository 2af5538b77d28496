[package]
name = "printf_log_formatter"
version = "0.1.0"
edition = "2021"
publish = false

[dependencies]
rustpython-parser = "=0.3.1"
clap = { version = "=4.6.7", features = ["derive"] }
tokio = { version = "=1.53.2", features = ["macros", "rt-multi-thread", "fs", "io-util"] }
futures = "=0.3.34"
anyhow = "=1.0.104"
