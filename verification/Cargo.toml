[package]
name = "unifand"
version = "0.1.0"
edition = "2021"
publish = false

[dependencies]
cbc = "=0.1.2"
des = "=0.8.1"
hidapi = { version = "=2.6.7", default-features = false, features = ["linux-native-basic-udev"] }
rusb = "=0.9.4"
serde = { version = "=1.0.229", features = ["derive"] }
serde_json = "=1.0.154"
clap = { version = "=4.6.7", features = ["derive"] }
anyhow = "=1.0.104"
thiserror = "=1.0.69"
notify = "=6.1.1"
