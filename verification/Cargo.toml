[package]
name = "consumer_group_store"
version = "0.1.0"
edition = "2021"
publish = false

[dependencies]
anyhow = "=1.0.104"
etcd-client = "=0.8.4"
scylla = "=0.13.2"
tracing = "=0.1.44"
uuid = { version = "=1.29.0", features = ["v4"] }
