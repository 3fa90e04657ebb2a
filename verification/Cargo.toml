[package]
name = "backend"
version = "0.1.0"
edition = "2021"
publish = false

[dependencies]
actix-files = "0.6"
actix-web = { version = "4", default-features = false, features = ["macros", "cookies"] }
askama = { version = "0.12", default-features = false }
chrono = { version = "0.4", default-features = false, features = ["std"] }
fancy-regex = { version = "0.13", default-features = false, features = ["unicode"] }
jsonwebtoken = { version = "9", default-features = false }
password-auth = "1"
rand_chacha = "0.3"
rand_core = { version = "0.6", features = ["getrandom"] }
serde = { version = "1", features = ["derive"] }
shuttle-actix-web = "*"
shuttle-runtime = "*"
sqlx = { version = "0.8", default-features = false, features = ["runtime-tokio", "postgres", "chrono"] }
