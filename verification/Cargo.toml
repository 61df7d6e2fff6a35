[package]
name = "vxbot"
version = "0.1.0"
edition = "2021"
publish = false

[dependencies]
dashmap = "*"
serenity = "0.12"
tokio = { version = "1", features = ["macros", "rt-multi-thread"] }
dotenvy = "*"
