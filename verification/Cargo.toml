[package]
name = "rael"
version = "0.1.0"
edition = "2021"
publish = false

[dependencies]
crossterm = { version = "0.28", features = ["event-stream"] }
futures = "0.3"
rustix = { version = "0.38", features = ["termios", "stdio"] }
signal-hook = "0.3"
tokio = { version = "1", features = ["macros", "rt", "rt-multi-thread", "sync", "time"] }
