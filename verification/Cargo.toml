[package]
name = "budget_chat"
version = "0.1.0"
edition = "2021"
publish = false

[dependencies]
actix = "0.13"
futures = "0.3"
slotmap = "1"
tokio = { version = "1", features = ["net", "io-util", "rt"] }
tokio-util = { version = "0.7", features = ["codec", "io"] }
