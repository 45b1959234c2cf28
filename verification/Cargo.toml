[package]
name = "netbackup"
version = "0.1.0"
edition = "2021"
publish = false

[dependencies]
sha2 = "0.10"
tokio = { version = "1", features = ["rt-multi-thread", "net", "io-util", "macros"] }
serde = { version = "1", features = ["derive"] }
toml = "0.8"
directories = "5"
