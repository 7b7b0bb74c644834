[package]
name = "twodo"
version = "0.1.0"
edition = "2021"
publish = false

[dependencies]
clap = { version = "*", features = ["derive"] }
crossterm = { version = "*", features = ["event-stream"] }
futures = "*"
ratatui = "*"
sqlx = { version = "*", features = ["runtime-tokio", "sqlite"] }
tokio = { version = "*", features = ["macros", "rt-multi-thread", "time"] }
