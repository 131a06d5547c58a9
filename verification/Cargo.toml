[package]
name = "dbba"
version = "0.1.0"
edition = "2021"
publish = false

[dependencies]
md-5 = "*"
similar = "*"
chrono = "*"
sqlx = { version = "*", default-features = false, features = ["mysql", "runtime-tokio", "chrono"] }
tokio = { version = "*", features = ["rt-multi-thread", "macros"] }
clap = { version = "*", features = ["derive", "env"] }
anyhow = "*"
arboard = "*"
ulid = "*"
async-trait = "*"
