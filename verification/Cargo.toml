[package]
name = "mimo"
version = "0.1.0"
edition = "2021"
publish = false

[dependencies]
serde = { version = "1", features = ["derive"] }
serde_json = "1"
reqwest = { version = "0.12", features = ["json", "stream"] }
tokio = { version = "1", features = ["full"] }
futures = "0.3"
hound = "3.5"
rubato = "0.15"
symphonia = { version = "*", features = ["all"] }
chrono = "0.4"
