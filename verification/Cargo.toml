[package]
name = "rustquote"
version = "0.1.0"
edition = "2021"
publish = false

[dependencies]
rand = "0.8"
axum = "*"
tokio = { version = "*", features = ["macros", "rt-multi-thread", "net"] }
dotenvy = "*"
tracing = "*"
tracing-subscriber = "*"
