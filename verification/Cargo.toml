[package]
name = "db_helpers"
version = "0.1.0"
edition = "2021"
publish = false

[dependencies]
futures = "0.3"
sqlx = { version = "0.8", default-features = false, features = ["runtime-tokio", "mysql", "postgres", "sqlite", "chrono"] }
