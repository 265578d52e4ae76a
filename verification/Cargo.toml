[package]
name = "qq_bot"
version = "0.1.0"
edition = "2021"
publish = false

[dependencies]
anyhow = "1"
md5 = "0.7"
rand = "0.8"
proc_qq = { version = "0.1.36", default-features = false }
tokio = { version = "1", features = ["macros", "rt-multi-thread"] }
tracing = "0.1"
tracing-subscriber = "0.3"
