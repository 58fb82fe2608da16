[package]
name = "can_viewer"
version = "0.1.0"
edition = "2021"
publish = false

[dependencies]
indexmap = "*"
clap = { version = "*", features = ["derive"] }
color-eyre = "*"
colored = "*"
crossterm = { version = "*", features = ["event-stream"] }
futures = "*"
ratatui = "*"
socketcan = { version = "*", features = ["tokio"] }
tokio = { version = "*", features = ["macros", "rt-multi-thread"] }
