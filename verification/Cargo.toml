[package]
name = "noname_server"
version = "0.1.0"
edition = "2021"
publish = false

[dependencies]
salvo = { version = "*", features = ["websocket"] }
tokio = { version = "*", features = ["macros", "rt-multi-thread", "sync"] }
futures-util = "*"
tokio-stream = "*"
serde_json = "*"
rand = "*"
tracing = "*"
tracing-subscriber = "*"
