[package]
name = "dpdk"
version = "0.1.0"
edition = "2021"
publish = false

[dependencies]
dpdk-sys = "=0.1.5"
log = "=0.4.34"
thiserror = "=1.0.69"
