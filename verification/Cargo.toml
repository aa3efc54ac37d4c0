[package]
name = "pipehub"
version = "0.1.0"
edition = "2021"
publish = false

[dependencies]
dashmap = "*"
actix-web = "*"
reqwest = { version = "*", default-features = false, features = ["json"] }
serde = { version = "*", features = ["derive"] }
serde_json = "*"
sqlx = { version = "*", default-features = false, features = ["runtime-tokio", "postgres"] }
futures-util = "*"

[dev-dependencies]
base58 = "*"
