[package]
name = "etlbot"
version = "0.1.0"
edition = "2021"
publish = false

[dependencies]
anyhow = "*"
futures = "*"
irc = "*"
reqwest = { version = "*", default-features = false, features = ["json"] }
serde = { version = "*", features = ["derive"] }
structopt = "*"
tokio = { version = "*", features = ["full"] }
toml = "*"
twilight-gateway = "*"
twilight-http = "*"
twilight-model = "*"
