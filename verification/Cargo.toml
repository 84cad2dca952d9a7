[package]
name = "flag_bearer"
version = "0.1.0"
edition = "2021"
publish = false

[dependencies]
pin-list = "0.1"
tokio-postgres = "0.7"
tokio = { version = "1", features = ["rt", "rt-multi-thread", "macros", "time", "sync", "net"] }
parking_lot = "0.12"
lock_api = "0.4"
libc = "0.2"
cfg-if = "1"
pin-project-lite = "0.2"

[dev-dependencies]
rand = "*"
rand_xoshiro = "*"
