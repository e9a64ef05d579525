[package]
name = "tictactoe"
version = "0.1.0"
edition = "2021"
publish = false

[dependencies]
futures = "0.3"
tokio = { version = "1", features = ["macros", "rt-multi-thread", "sync"] }
tokio-stream = "0.1"
uuid = { version = "1", features = ["v4"] }
warp = { version = "0.3", default-features = false, features = ["websocket"] }
