[package]
name = "remote_sessions"
version = "0.1.0"
edition = "2021"
publish = false

[dependencies]
shell-words = "=1.1.1"
uuid = { version = "=1.29.0", features = ["v4"] }
getrandom = "=0.4.3"
chrono = { version = "=0.4.45", default-features = false, features = ["clock", "std"] }
serde = { version = "=1.0.229", features = ["derive"] }
serde_json = "=1.0.154"
schemars = "=1.2.3"
enum-iterator = "=2.3.0"
futures = "=0.3.34"
async-process = "=2.5.0"
log = "=0.4.35"
pathfinder_color = "=0.5.0"
pathfinder_geometry = "=0.5.1"
