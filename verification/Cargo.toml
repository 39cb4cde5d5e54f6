[package]
name = "typinator"
version = "0.1.0"
edition = "2021"
publish = false

[dependencies]
rand = "*"
crossterm = { version = "*", features = ["event-stream"] }
futures = "*"
futures-timer = "*"
tokio = { version = "*", features = ["macros", "rt-multi-thread"] }
lazy_static = "*"
