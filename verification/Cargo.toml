[package]
name = "db_shield"
version = "0.1.0"
edition = "2021"
publish = false

[dependencies]
anyhow = "*"
chrono = "*"
clap = { version = "*", features = ["derive"] }
comfy-table = "*"
cron = "*"
dialoguer = "*"
directories = "*"
log = "*"
serde = { version = "*", features = ["derive"] }
simplelog = "*"
tokio = { version = "*", features = ["macros", "rt-multi-thread", "time"] }
toml = "*"
