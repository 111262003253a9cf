[package]
name = "messenger"
version = "0.1.0"
edition = "2021"
publish = false

[dependencies]
petgraph = "*"
serde = { version = "*", features = ["derive"] }
serde_json = "*"
password-auth = "*"
tokio = { version = "*", features = ["full"] }
sqlx = { version = "*", default-features = false, features = ["mysql", "runtime-tokio"] }
