[package]
name = "camera_relay"
version = "0.1.0"
edition = "2021"
publish = false

[dependencies]
mdns-sd = "*"
tokio = { version = "1", features = ["macros", "rt-multi-thread"] }
warp = "0.3"
