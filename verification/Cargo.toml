[package]
name = "nymx_mail"
version = "0.1.0"
edition = "2021"
publish = false

[dependencies]
ripemd = "0.1"
hex = "0.4"
rand = "0.8"
serde = { version = "1", features = ["derive"] }
serde_json = "1"
filetime = "0.2"
clap = { version = "4", features = ["derive"] }
tokio = { version = "1", features = ["full"] }
ssh2 = "0.9"
