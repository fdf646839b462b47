[package]
name = "akc"
version = "0.1.0"
edition = "2021"
publish = false

[dependencies]
rand = "=0.10.3"
clap = { version = "=4.6.7", features = ["derive"] }
dirs = "*"
sqlx = { version = "=0.9.0", default-features = false, features = ["sqlite", "runtime-tokio"] }
tokio = { version = "=1.53.2", features = ["rt", "macros"] }
