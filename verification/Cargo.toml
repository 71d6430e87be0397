[package]
name = "endjine"
version = "0.1.0"
edition = "2021"
publish = false

[dependencies]
uuid = "1"
sqlx = { version = "0.8", default-features = false, features = ["runtime-tokio", "sqlite", "time", "uuid"] }
tokio = { version = "1", features = ["rt-multi-thread", "macros"] }
anyhow = "1"
log = "0.4"
env_logger = "0.11"
clap = { version = "4", features = ["derive"] }
futures-util = "0.3"
image = { version = "0.25", default-features = false, features = ["png", "jpeg", "bmp", "tga"] }
m3u = "1"
time = "0.3"
