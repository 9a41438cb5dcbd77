[package]
name = "session_auth"
version = "0.1.0"
edition = "2021"
publish = false

[dependencies]
jsonwebtoken = { version = "=11.1.0", features = ["rust_crypto"] }
bcrypt = "=0.19.3"
rand = "=0.10.3"
chrono = "=0.4.45"
serde = { version = "=1.0.229", features = ["derive"] }
actix-web = "=4.15.0"
tokio = { version = "=1.53.2", features = ["rt", "macros"] }
tokio-postgres = "=0.7.18"
futures = "=0.3.34"
dotenv = "=0.15.0"
colored = "=3.1.1"
