[package]
name = "bob"
version = "0.1.0"
edition = "2021"
publish = false

[dependencies]
futures = "0.3"
futures-locks = "*"
rocket = { version = "0.5", features = ["json"] }
serde = { version = "1", features = ["derive"] }
tokio = { version = "1", features = ["rt-multi-thread", "sync", "time"] }
tonic = { version = "*", default-features = false }
