[package]
name = "dildonica"
version = "0.1.0"
edition = "2021"
publish = false

[dependencies]
uuid = "1"
clap = { version = "4", features = ["derive"] }
futures = "0.3"
thiserror = "1"
tokio = { version = "1", features = ["macros", "rt-multi-thread", "sync", "time"] }
