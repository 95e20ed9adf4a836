[package]
name = "marp_video"
version = "0.1.0"
edition = "2021"
publish = false

[dependencies]
anyhow = "1"
clap = { version = "4", features = ["derive"] }
directories = "5"
futures = "0.3"
glob = "0.3"
markdown = "1.0.0"
md5 = "0.7"
serde = { version = "1", features = ["derive"] }
serde-env-field = "*"
serde_yaml = "0.9"
thiserror = "1"
tokio = { version = "1", features = ["macros", "process", "rt"] }
toml = "0.8"
