[package]
name = "adb_sink"
version = "0.1.0"
edition = "2021"
publish = false

[dependencies]
clap = { version = "=4.6.7", features = ["derive"] }
mdns-sd = "=0.21.5"
rsa = "=0.9.10"
rusb = "=0.9.4"
sha1 = { version = "=0.10.6", features = ["oid"] }
typed-path = "=0.12.3"
