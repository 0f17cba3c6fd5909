[package]
name = "landscape-common"
version = "0.1.0"
edition = "2021"
publish = false

[dependencies]
async-trait = "0.1"
serde = { version = "1", features = ["derive"] }
sqlx = { version = "0.8", default-features = false, features = ["postgres", "runtime-tokio"] }
thiserror = "2"
tokio = { version = "1", features = ["rt", "sync"] }
toml = "0.8"
tracing = "0.1"
ts-rs = "*"
