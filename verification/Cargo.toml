[package]
name = "task_forest"
version = "0.1.0"
edition = "2021"
publish = false

[dependencies]
uuid = { version = "1", features = ["v4"] }
juniper = "0.16"
juniper_warp = "0.8"
warp = "0.3"
tokio = { version = "1", features = ["macros", "rt-multi-thread"] }
