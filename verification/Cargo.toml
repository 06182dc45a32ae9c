[package]
name = "thread_counters"
version = "0.1.0"
edition = "2021"
publish = false

[dependencies]
bytesize = "*"
json = "*"
lazy_static = "*"
parking_lot = "*"
