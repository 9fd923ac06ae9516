[package]
name = "albumplayer"
version = "0.1.0"
edition = "2021"
publish = false

[dependencies]
anyhow = "1"
argon2 = { version = "=0.5.3", features = ["std"] }
axum = "0.8"
clap = { version = "4", features = ["derive"] }
getrandom = "=0.3.4"
libc = "0.2"
lofty = "=0.24.0"
rayon = "1"
rusqlite = { version = "=0.41.1", features = ["bundled"] }
serde = { version = "1", features = ["derive"] }
serde_json = "=1.0.154"
thiserror = "2"
tokio = { version = "1", features = ["rt-multi-thread", "macros", "net", "signal"] }
tower = { version = "0.5", features = ["util"] }
tower-http = { version = "0.6", features = ["cors", "fs", "trace"] }
tracing = "0.1"
tracing-subscriber = { version = "0.3", features = ["env-filter"] }
ureq = "=3.5.1"
walkdir = "2"

[lints.rust]
unexpected_cfgs = { level = "warn", check-cfg = ["cfg(playback)", "cfg(desktop)"] }
