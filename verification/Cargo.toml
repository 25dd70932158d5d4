[package]
name = "war_machine"
version = "0.1.0"
edition = "2021"
publish = false

[dependencies]
regex = "1"
serde = { version = "1", features = ["derive"] }
serde_json = "1"
tokio = { version = "1", features = ["full"] }
futures = "0.3"
toml = "0.8"
clap = { version = "4", features = ["cargo"] }
clap_complete = "4"
dotenv = "0.15"
keyring = "3"
reqwest = { version = "0.12", features = ["json"] }
os_info = "3"
rpassword = "7"
fastrand = "2"
