[package]
name = "springql_core"
version = "0.1.0"
edition = "2021"
publish = false

[dependencies]
petgraph = "0.6"
anyhow = "1"
log = "0.4"
env_logger = "0.9"
log-panics = "2"
