[package]
name = "craft"
version = "0.1.0"
edition = "2021"
publish = false

[dependencies]
anyhow = "*"
axum = "*"
base64 = "*"
rand = "*"
reqwest = { version = "*", default-features = false, features = ["json"] }
secrecy = "*"
serde = { version = "*", features = ["derive"] }
sqlx = { version = "*", default-features = false, features = ["runtime-tokio", "postgres", "uuid", "time"] }
time = "*"
tokio = { version = "*", features = ["rt-multi-thread", "macros", "net", "time"] }
uuid = { version = "*", features = ["v4"] }
validator = "*"
