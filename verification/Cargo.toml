[package]
name = "crossover_db"
version = "0.1.0"
edition = "2021"
publish = false

[dependencies]
heed = "0.11"
anyhow = "1"
dotenv = "0.15"
poise = "0.3"
tokio = { version = "1", features = ["macros", "rt-multi-thread", "sync"] }
tracing = "0.1"
tracing-subscriber = "0.3"

[dev-dependencies]
tempfile = "3"
