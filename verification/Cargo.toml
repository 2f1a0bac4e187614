[package]
name = "limit_order_book"
version = "0.1.0"
edition = "2021"
publish = false

[dependencies]
anyhow = "*"
axum = "*"
log = "*"
serde = { version = "*", features = ["derive"] }
simple_logger = "*"
tokio = { version = "*", features = ["rt-multi-thread", "net", "macros", "sync"] }
