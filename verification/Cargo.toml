[package]
name = "appengine"
version = "0.1.0"
edition = "2021"
publish = false

[dependencies]
blockingqueue = "*"
crossbeam = "*"
once_cell = "*"
rocksdb = "*"
serde_json = "*"
wasmedge-sys = "*"
wasmedge-types = "*"
zmq = "*"
