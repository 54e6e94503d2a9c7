[package]
name = "xv6_kernel"
version = "0.1.0"
edition = "2021"
publish = false

[dependencies]
smoltcp = { version = "0.12", default-features = false, features = ["alloc", "medium-ethernet", "medium-ip", "proto-ipv4", "socket-tcp"] }
