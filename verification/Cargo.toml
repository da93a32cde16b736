[package]
name = "backend"
version = "0.1.0"
edition = "2021"
publish = false

[dependencies]
dotenv = "*"
sqlx = { version = "*", default-features = false, features = ["runtime-tokio", "postgres", "migrate", "macros"] }
tokio = { version = "*", default-features = false, features = ["macros", "rt-multi-thread"] }
