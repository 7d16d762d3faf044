[package]
name = "appconfig"
version = "0.1.0"
edition = "2021"
publish = false

[dependencies]
dotenvy = "0.15"
tokio = { version = "1", features = ["macros", "rt-multi-thread"] }
tokio-postgres = "0.7"
