[package]
name = "duckle"
version = "0.1.0"
edition = "2021"
publish = false

[dependencies]
argon2 = "=0.5.3"
base64 = "=0.22.1"
bytemuck = "=1.25.2"
chrono = { version = "=0.4.45", features = ["serde"] }
cron = "=0.17.0"
getrandom = "=0.3.4"
glob = "=0.3.4"
lettre = { version = "=0.11.23", default-features = false, features = ["builder", "smtp-transport", "rustls-tls"] }
libc = "=0.2.191"
notify = "=8.2.1"
notify-debouncer-mini = "=0.7.0"
pollster = "=1.0.1"
serde = { version = "=1.0.229", features = ["derive"] }
serde_json = "=1.0.154"
sha2 = "=0.10.9"
tokio = { version = "=1.54.1", features = ["rt-multi-thread", "sync", "time", "macros"] }
tracing = "=0.1.44"
uuid = { version = "=1.29.0", features = ["v4"] }
wgpu = "=30.0.1"

[dev-dependencies]
regex = "=1.13.1"
