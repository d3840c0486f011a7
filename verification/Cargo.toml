[package]
name = "mqtt_discord_bridge"
version = "0.1.0"
edition = "2021"
publish = false

[dependencies]
libzmq = "0.2"
log = "0.4"
rand = "0.7"
rumqtt = "0.31"
simplelog = "0.7"

[dev-dependencies]
serde_json = "1"
