[package]
name = "oxide_rack"
version = "0.1.0"
edition = "2021"
publish = false

[dependencies]
async-trait = "=0.1.92"
bincode = "=1.3.3"
bytes = "=1.12.1"
chrono = { version = "=0.4.45", default-features = false, features = ["clock", "std"] }
dropshot = "=0.17.1"
futures = "=0.3.34"
hyper = { version = "=0.14.32", features = ["server", "http1", "tcp", "stream"] }
schemars = "=0.8.22"
serde = { version = "=1.0.229", features = ["derive"] }
slog = "=2.8.2"
socket2 = "=0.5.10"
tokio = { version = "=1.54.1", features = ["macros", "net", "rt-multi-thread", "sync", "time"] }
uuid = { version = "=1.29.0", features = ["v4"] }
vsss-rs = "=5.4.0"
