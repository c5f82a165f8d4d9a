[package]
name = "chain_index"
version = "0.1.0"
edition = "2021"
publish = false

[dependencies]
indexmap = "*"
axum = "*"
serde = { version = "*", features = ["derive"] }
tower-http = { version = "*", features = ["cors"] }
chia = "*"
itertools = "*"
