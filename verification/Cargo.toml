[package]
name = "metric_logger"
version = "0.1.0"
edition = "2021"
publish = false

[dependencies]
parking_lot = "*"
time = "0.1"
