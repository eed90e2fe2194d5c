[package]
name = "inverter_codec"
version = "0.1.0"
edition = "2021"
publish = false

[dependencies]
clap = { version = "4", features = ["derive"] }
crc = "3"
env_logger = "*"
log = "0.4"
paho-mqtt = "*"
rusb = "0.9"
serde = { version = "1", features = ["derive"] }
serde_json = "1"
serde_yaml = "0.9"
snafu = "*"
