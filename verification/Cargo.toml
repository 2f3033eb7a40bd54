[package]
name = "sysaudit"
version = "0.1.0"
edition = "2021"
publish = false

[dependencies]
base64 = "0.22"
chrono = "0.4"
clap = { version = "4", features = ["derive"] }
comfy-table = "7"
csv = "1"
reqwest = { version = "0.12", default-features = false }
secrecy = "0.10"
serde = { version = "1", features = ["derive"] }
serde_json = "1"
sysinfo = "*"
windows-registry = "*"
wmi = "*"
