[package]
name = "tarok_scorer"
version = "0.1.0"
edition = "2021"
publish = false

[dependencies]
chrono = "=0.4.45"
uuid = { version = "=1.29.0", features = ["v4"] }
teloxide = { version = "=0.12.2", features = ["macros"] }
takecell = "<0.1.2"
tokio = { version = "=1.54.1", features = ["macros", "rt-multi-thread", "sync"] }
diesel = { version = "=1.4.8", features = ["sqlite"] }
dotenv = "=0.15.0"
once_cell = "=1.21.4"
pretty_env_logger = "=0.4.0"
