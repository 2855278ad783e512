[package]
name = "pressr"
version = "0.1.0"
edition = "2021"
publish = false

[dependencies]
rand = "*"
reqwest = { version = "*", default-features = false, features = ["json"] }
serde = { version = "*", features = ["derive"] }
serde_json = "*"
tokio = { version = "*", features = ["rt-multi-thread", "macros", "time"] }
futures = "*"
clap = { version = "*", features = ["derive"] }
