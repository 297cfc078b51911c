[package]
name = "mutable_buffer"
version = "0.1.0"
edition = "2021"
publish = false

[dependencies]
hashbrown = "*"
ahash = "*"
chrono = "*"
influxdb-line-protocol = "*"
parking_lot = "*"
