[package]
name = "hexmeow-motor-iap"
version = "0.1.0"
edition = "2021"
publish = false

[dependencies]
can-transport = "=0.1.4"
crc = "=3.4.0"
sha2 = "=0.10.9"
thiserror = "=2.0.21"
tokio = { version = "=1.54.1", features = ["time"] }

[dev-dependencies]
hex = "=0.4.3"
