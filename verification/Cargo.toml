[package]
name = "mmproxy"
version = "0.1.0"
edition = "2021"
publish = false

[dependencies]
argwerk = "=0.20.4"
cidr = "=0.3.2"
env_logger = "=0.11.11"
log = "=0.4.35"
num_cpus = "=1.17.0"
proxy-protocol = { version = "=0.5.0", features = ["always_exhaustive"] }
simple-eyre = "=0.3.1"
socket2 = { version = "=0.5.10", features = ["all"] }
tokio = { version = "=1.54.1", features = ["full"] }
tokio-util = "=0.7.20"
