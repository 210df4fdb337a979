[package]
name = "dad_jokes"
version = "0.1.0"
edition = "2021"
publish = false

[dependencies]
axum = "=0.8.9"
async-openai = { version = "=0.42.1", features = ["chat-completion"] }
config = "=0.15.27"
dotenv = "=0.15.0"
serde = { version = "=1.0.229", features = ["derive"] }
sqlx = { version = "=0.9.0", default-features = false, features = ["runtime-tokio", "postgres", "time"] }
time = { version = "=0.3.55", features = ["formatting"] }
tokio = { version = "=1.53.2", features = ["rt-multi-thread", "macros", "net"] }
tower-http = { version = "=0.7.1", features = ["cors", "fs"] }
tracing = "=0.1.44"
