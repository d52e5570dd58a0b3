[package]
name = "lempek_assets"
version = "0.1.0"
edition = "2021"
publish = false

[dependencies]
uuid = { version = "1", features = ["v7", "serde"] }
rocket = { version = "0.5", features = ["json", "secrets", "uuid"] }
sqlx = { version = "0.8", default-features = false, features = ["runtime-tokio", "postgres", "uuid", "chrono", "derive", "migrate"] }
chrono = { version = "0.4", features = ["serde"] }
serde = { version = "1", features = ["derive"] }
bcrypt = "0.15"
jsonwebtoken = "9"
dotenvy = "0.15"
log = "0.4"
reqwest = { version = "0.12", default-features = false, features = ["json"] }
