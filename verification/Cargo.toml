[package]
name = "botofgreed"
version = "0.1.0"
edition = "2021"
publish = false

[dependencies]
chrono = "0.4"
emojis = "0.6"
humantime = "2"
rand = "0.8"
serde = { version = "1", features = ["derive"] }
serde_json = "1"
serde_repr = "0.1"
serenity = "0.12"
tokio = { version = "1", features = ["macros", "rt-multi-thread", "fs"] }
once_cell = "1"
dotenv = "0.15"
log = "0.4"
log4rs = { version = "1", default-features = false, features = ["console_appender", "pattern_encoder"] }
owo-colors = "3"
