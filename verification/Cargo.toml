[package]
name = "jay"
version = "0.1.0"
edition = "2021"
publish = false

[dependencies]
ahash = "0.8"
bincode = "2"
bitflags = "1.3"
libloading = "0.8"
log = "0.4"
parking_lot = "0.12"
rand = "0.8"
thiserror = "1"
uapi = "0.2"
xcb-dl = "0.2"
xcb-dl-util = "0.2"
