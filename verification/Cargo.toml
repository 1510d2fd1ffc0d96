[package]
name = "harness"
version = "0.1.0"
edition = "2021"
publish = false

[dependencies]
serde_json = "1"
serde = { version = "1", features = ["derive"] }
async-trait = "0.1"
thiserror = "1"
tokio = { version = "1", features = ["rt", "macros", "process", "time", "io-util", "fs"] }
reqwest = { version = "0.12", default-features = false, features = ["json"] }
rusqlite = { version = "0.31", features = ["bundled"] }
