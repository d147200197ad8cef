[package]
name = "ys_coding_agent"
version = "0.1.0"
edition = "2021"
publish = false

[dependencies]
unicode-normalization = "0.1"
serde = { version = "1", features = ["derive"] }
serde_json = "1"
tokio = { version = "1", features = ["full"] }
reqwest = { version = "0.12", default-features = false, features = ["json", "rustls-tls"] }
crossterm = "0.28"
ratatui = "0.29"
inquire = "0.7"
async-trait = "0.1"
futures = "0.3"
thiserror = "2"
rustyline = "14"
