[package]
name = "gnss2tec_logger"
version = "0.1.0"
edition = "2021"
publish = false

[dependencies]
anyhow = "1"
chrono = "0.4"
clap = { version = "4", features = ["derive", "env"] }
ctrlc = "3"
flate2 = "1"
fs2 = "0.4"
serialport = { version = "4", default-features = false }
tar = "0.4"
ublox = "*"
