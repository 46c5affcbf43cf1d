[package]
name = "zo_keeper"
version = "0.1.0"
edition = "2021"
publish = false

[dependencies]
fixed = "1"
tokio = { version = "1", features = ["rt-multi-thread", "time", "macros"] }
tracing = "0.1"
tracing-subscriber = { version = "0.3", features = ["env-filter"] }
clap = { version = "3", features = ["derive", "env"] }
dotenv = "0.15"
