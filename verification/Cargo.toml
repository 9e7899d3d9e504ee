[package]
name = "notification_closer"
version = "0.1.0"
edition = "2021"
publish = false

[dependencies]
accessibility-sys = "=0.1.3"
core-foundation = "=0.10.1"
env_logger = "=0.11.11"
log = "=0.4.34"
sysinfo = "=0.31.4"
