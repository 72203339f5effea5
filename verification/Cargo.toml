[package]
name = "manatan"
version = "0.1.0"
edition = "2021"
publish = false

[dependencies]
serde = { version = "=1.0.229", features = ["derive"] }
serde_json = "=1.0.154"
reqwest = { version = "=0.12.28", default-features = false }
zip = { version = "=9.2.2", default-features = false, features = ["deflate-flate2-zlib-rs"] }
anyhow = "=1.0.104"
axum = "=0.8.9"
tokio = { version = "=1.54.1", features = ["full"] }
clap = { version = "=4.6.7", default-features = false, features = ["std", "help", "usage", "error-context", "derive", "env"] }
directories = "=6.0.0"
rusqlite = { version = "=0.41.1", features = ["bundled"] }
mime_guess = "=2.0.5"
open = "=5.4.5"
tower-http = { version = "=0.6.11", features = ["cors"] }
tracing = "=0.1.44"
tracing-subscriber = { version = "=0.3.23", default-features = false, features = ["std", "fmt", "ansi", "env-filter"] }
libc = "=0.2.191"
self_update = { version = "=0.42.0", default-features = false }
rust-embed = "=8.13.0"
eframe = { version = "=0.37.0", default-features = false, features = ["default_fonts", "glow", "x11"] }
