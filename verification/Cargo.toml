[package]
name = "blog_core"
version = "0.1.0"
edition = "2021"
publish = false

[dependencies]
actix-cors = "0.7"
actix-files = "0.6"
actix-web = { version = "4", default-features = false, features = ["macros", "compress-gzip"] }
argon2 = { version = "0.5", features = ["std"] }
askama = "0.12"
chrono = { version = "0.4", features = ["serde"] }
dotenv = "0.15"
html-escape = "0.2"
num_cpus = "1"
serde = { version = "1", features = ["derive"] }
serde_json = "1"
sqlx = { version = "0.8", default-features = false, features = ["runtime-tokio", "postgres", "chrono", "derive"] }
tokio = { version = "1", features = ["time", "rt-multi-thread", "macros"] }
