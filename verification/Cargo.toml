[package]
name = "shhhfs"
version = "0.1.0"
edition = "2021"
publish = false

[dependencies]
anyhow = "=1.0.104"
clap = { version = "=4.6.7", features = ["derive"] }
console = "=0.16.6"
dialoguer = "=0.12.0"
fuser = "=0.17.0"
indicatif = "=0.18.6"
libc = "=0.2.191"
serde_json = "=1.0.154"
thiserror = "=2.0.21"
tokio = { version = "=1.54.1", features = ["full"] }
