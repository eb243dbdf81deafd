[package]
name = "tow_dispatch"
version = "0.1.0"
edition = "2021"
publish = false

[dependencies]
rand = "0.8"
argon2 = "0.5"
log = "0.4"
serde = { version = "1", features = ["derive"] }
actix-web = { version = "4", default-features = false, features = ["macros"] }
sqlx = { version = "0.8", default-features = false, features = ["derive"] }
