[package]
name = "rconcrete"
version = "0.1.0"
edition = "2021"
publish = false

[dependencies]
clap = { version = "=4.6.7", features = ["derive"] }
directories = "=6.0.0"
rcon = { version = "=0.6.0", features = ["rt-tokio"] }
serde = { version = "=1.0.229", features = ["derive"] }
serde_json = "=1.0.151"
thiserror = "=2.0.21"
tokio = { version = "=1.53.2", features = ["rt-multi-thread", "net", "io-util"] }
