[package]
name = "b-table"
version = "0.1.0"
edition = "2021"
publish = false

[dependencies]
b-tree = { version = "=0.5.0", features = ["stream"] }
freqfs = { version = "=0.12.1", features = ["stream"] }
futures = "=0.3.34"
log = "=0.4.35"
safecast = "=0.2.3"
smallvec = "=1.16.4"
tokio = { version = "=1.54.1", features = ["rt-multi-thread", "sync"] }

