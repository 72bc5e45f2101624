[package]
name = "sui_cli"
version = "0.1.0"
edition = "2021"
publish = false

[dependencies]
dirs-next = "2"
reqwest = "0.11"
serde = { version = "1", features = ["derive"] }
serde_json = "1"
tokio = { version = "1", features = ["macros", "rt-multi-thread"] }
