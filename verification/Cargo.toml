[package]
name = "glowtail"
version = "0.1.0"
edition = "2021"
publish = false

[dependencies]
anyhow = "1"
chrono = { version = "=0.4.45", default-features = false, features = ["std"] }
clap = { version = "4", default-features = false, features = ["derive", "std", "help", "usage", "error-context"] }
crossterm = "0.28"
iced = { version = "0.13", default-features = false, features = ["wgpu", "tokio"] }
notify = { version = "8", default-features = false, features = ["macos_kqueue"] }
ratatui = { version = "0.29", default-features = false, features = ["crossterm"] }
regex = "=1.13.1"
serde = { version = "1", features = ["derive"] }
serde_json = "=1.0.154"
thiserror = "2"
tokio = { version = "1", features = ["rt-multi-thread", "fs", "io-util", "macros", "sync", "time"] }
