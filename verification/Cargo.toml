[package]
name = "read_it_later"
version = "0.1.0"
edition = "2021"
publish = false

[dependencies]
sha2 = "0.10"
ammonia = "4"
actix-web = { version = "4", default-features = false, features = ["macros"] }
actix-cors = "0.7"
async-trait = "0.1"
chrono = { version = "0.4", default-features = false, features = ["std", "clock", "serde"] }
dotenv = "0.15"
redis = { version = "0.27", default-features = false, features = ["tokio-comp"] }
serde = { version = "1", features = ["derive"] }
serde_json = "1"
sqlx = { version = "0.8", default-features = false, features = ["runtime-tokio", "sqlite", "postgres", "chrono", "derive"] }
tera = { version = "1", default-features = false }
