[package]
name = "remote_logger"
version = "0.1.0"
edition = "2021"

[dependencies]
chrono = "0.4"
log = { version = "0.4", features = ["std"] }
slotmap = "1.0"
thiserror = "1.0"
