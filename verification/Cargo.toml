[package]
name = "refuel_bot"
version = "0.1.0"
edition = "2021"
publish = false

[dependencies]
tgbot = { version = "=0.48.1", features = ["webhook"] }
tokio = { version = "=1.53.2", features = ["macros", "rt-multi-thread"] }
futures-util = "=0.3.34"
