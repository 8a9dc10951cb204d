[package]
name = "orca"
version = "0.1.0"
edition = "2021"
publish = false

[dependencies]
anyhow = "=1.0.104"
async-trait = "=0.1.92"
base64 = "=0.22.1"
bollard = "=0.18.1"
chrono = { version = "=0.4.45", default-features = false, features = ["clock", "std"] }
comrak = { version = "=0.35.0", default-features = false }
dirs-next = "=2.0.0"
futures-util = "=0.3.34"
getrandom = "=0.4.3"
lettre = { version = "=0.11.23", default-features = false, features = ["builder", "smtp-transport", "tokio1", "tokio1-rustls-tls"] }
reqwest = { version = "=0.12.28", default-features = false, features = ["json", "rustls-tls"] }
serde = { version = "=1.0.229", features = ["derive"] }
serde_json = "=1.0.154"
sysinfo = "=0.33.1"
tokio = { version = "=1.54.1", features = ["full"] }
tokio-tungstenite = "=0.26.2"
tracing = "=0.1.44"
uuid = { version = "=1.29.0", features = ["v7"] }

[dev-dependencies]
proptest = "=1.12.0"
tempfile = "=3.27.0"
