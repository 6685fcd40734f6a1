[package]
name = "media_catalog"
version = "0.1.0"
edition = "2021"
publish = false

[dependencies]
uuid = { version = "1", features = ["v4", "v7", "serde"] }
serde = { version = "1", features = ["derive"] }
serde_json = "1"
actix-web = { version = "4", default-features = false, features = ["macros", "cookies"] }
actix-identity = "*"
actix-session = { version = "*", features = ["cookie-session"] }
actix-multipart = "*"
sqlx = { version = "0.8", default-features = false, features = ["postgres", "runtime-tokio", "uuid", "json"] }
tokio = { version = "1", features = ["fs", "io-util", "macros", "rt-multi-thread", "sync"] }
tokio-stream = "0.1"
futures-util = "0.3"
async-trait = "0.1"
argon2 = "0.5"
log = "0.4"
fern = "*"
colored = "*"
dotenv = "0.15"
anyhow = "1"
time = { version = "0.3", features = ["parsing", "serde"] }
