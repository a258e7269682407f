[package]
name = "mc_tui"
version = "0.1.0"
edition = "2021"
publish = false

[dependencies]
unicode-width = "*"
ratatui = "*"
crossterm = { version = "*", features = ["event-stream"] }
tokio = { version = "1", features = ["macros", "rt-multi-thread", "sync", "time"] }
anyhow = "1"
futures = "*"
serde = { version = "1", features = ["derive"] }
reqwest = { version = "*", default-features = false }
image = { version = "*", default-features = false }
ratatui-image = { version = "*", default-features = false }
