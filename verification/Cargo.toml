[package]
name = "wall_street_wolf"
version = "0.1.0"
edition = "2021"
publish = false

[dependencies]
apca = "*"
async-trait = "*"
chrono = "*"
dotenv = "*"
futures = "*"
http = "*"
http-endpoint = "*"
itertools = "*"
lazy_static = "*"
num-decimal = { version = "*", default-features = false, features = ["num-v04", "serde"] }
reqwest = { version = "*", default-features = false }
scraper = "*"
serde = { version = "*", features = ["derive"] }
serde_json = "*"
serde_urlencoded = "*"
ta = "*"
thiserror = "*"
tokio = { version = "*", features = ["rt-multi-thread", "macros", "time", "sync"] }
tracing = "*"
tracing-subscriber = { version = "*", features = ["env-filter"] }
