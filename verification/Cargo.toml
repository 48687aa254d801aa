[package]
name = "tts_bot"
version = "0.1.0"
edition = "2021"
publish = false

[dependencies]
anyhow = "1"
dotenvy = "0.15"
moka = { version = "0.12", features = ["future"] }
poise = "0.6"
serde = { version = "1", features = ["derive"] }
serde-inline-default = "*"
serde_json = "1"
songbird = "0.5"
tokio = { version = "1", features = ["macros", "rt-multi-thread", "sync"] }
toml = "0.8"
tracing = "0.1"
tracing-subscriber = "0.3"
vvcore = "0.0.2"
