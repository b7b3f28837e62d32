[package]
name = "activity_summary"
version = "0.1.0"
edition = "2021"
publish = false

[dependencies]
chrono = "=0.4.45"
clap = { version = "=4.6.7", features = ["derive", "env"] }
color-eyre = "=0.6.5"
dotenv = "=0.15.0"
futures = "=0.3.34"
humantime = "=2.4.0"
octocrab = "=0.40.0"
tokio = { version = "=1.54.1", features = ["macros", "rt-multi-thread"] }
url = "=2.5.8"
