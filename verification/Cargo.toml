[package]
name = "acronymy"
version = "0.1.0"
edition = "2021"
publish = false

[dependencies]
sqlite3 = "*"
url = "2"
time = "0.1"
libc = "0.2"
capnp = "*"
capnp-rpc = "*"
sandstorm = "*"
futures = "*"
