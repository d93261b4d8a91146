[package]
name = "explore_tui"
version = "0.1.0"
edition = "2021"
publish = false

[dependencies]
crux_core = "*"
crux_http = "*"
dashmap = "6"
log = "0.4"
serde = { version = "1", features = ["derive"] }
serde_json = "1"
tokio = { version = "1", features = ["io-std", "macros", "rt-multi-thread"] }
tower-lsp = "0.20"
