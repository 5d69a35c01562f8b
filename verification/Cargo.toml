[package]
name = "audiover"
version = "0.1.0"
edition = "2021"
publish = false

[dependencies]
base64 = "0.22"
cpal = "0.17"
dirs = "6"
evdev = "0.13"
log = "0.4"
parking_lot = "0.12"
rtrb = "0.3"
rubato = "*"
serde = { version = "1", features = ["derive"] }
serde_json = "1"
symphonia = "0.6"
uuid = { version = "1", features = ["v4"] }
