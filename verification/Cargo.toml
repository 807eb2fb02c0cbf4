[package]
name = "lcp"
version = "0.1.0"
edition = "2021"
publish = false

[dependencies]
anyhow = "*"
bollard = "*"
clap = { version = "*", features = ["derive"] }
crossterm = "*"
glob = "*"
open = "*"
ratatui = "*"
reqwest = { version = "*", default-features = false, features = ["json"] }
serde = { version = "*", features = ["derive"] }
serde_json = "*"
serde_yaml_ng = "*"
tokio = { version = "*", features = ["macros", "rt-multi-thread", "process", "time"] }
