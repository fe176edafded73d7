[package]
name = "clickhouse"
version = "0.1.0"
edition = "2021"
publish = false

[dependencies]
bytes = "1"
clickhouse-types = "*"
futures = "0.3"
