[package]
name = "mini_apt"
version = "0.1.0"
edition = "2021"
publish = false

[dependencies]
flate2 = "1"
futures = "0.3"
md5 = "0.7"
reqwest = "0.12"
tokio = { version = "1", features = ["macros", "rt-multi-thread", "fs", "io-util"] }
