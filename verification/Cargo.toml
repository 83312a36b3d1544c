[package]
name = "chat_core"
version = "0.1.0"
edition = "2021"
publish = false

[dependencies]
names = "=0.14.0"
chrono = { version = "=0.4.45", features = ["serde"] }
serde = { version = "=1.0.229", features = ["derive"] }
serde_json = "=1.0.151"
mongodb = "=2.8.2"
bson = { version = "=2.15.0", features = ["chrono-0_4"] }
axum = "=0.7.9"
socketioxide = { version = "=0.10.2", features = ["state"] }
tokio = { version = "=1.53.2", features = ["macros", "rt-multi-thread", "net", "sync"] }
tower = "=0.4.13"
tower-http = { version = "=0.5.2", features = ["cors"] }
tracing = "=0.1.44"
tracing-subscriber = "=0.3.23"
dotenv = "=0.15.0"
