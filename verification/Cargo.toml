[package]
name = "ares"
version = "0.1.0"
edition = "2021"
publish = false

[dependencies]
rand = "0.7"
serde = { version = "1", features = ["derive"] }
serde_json = "1"
serde_repr = "0.1"
clap = "2"
ctrlc = "3"
tokio = { version = "0.2", features = ["full"] }
warp = "0.2"
futures = "0.3"
diesel = { version = "1.4", features = ["postgres"] }
dotenv = "0.15"
