[package]
name = "xmeans"
version = "0.1.0"
edition = "2021"
publish = false

[dependencies]
csv = "=1.4.0"
kmeans = "=1.1.0"
statrs = "=0.19.1"
