[package]
name = "rustvncserver"
version = "0.1.0"
edition = "2021"
publish = false

[dependencies]
flate2 = "1"
jpeg-encoder = "*"
tokio = { version = "1", features = ["rt-multi-thread", "net", "sync", "time", "io-util", "macros"] }
log = "0.4"
once_cell = "1"
jni = "0.21"
android_logger = "*"

[dev-dependencies]
jpeg-decoder = "*"
