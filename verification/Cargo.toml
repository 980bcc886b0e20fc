[package]
name = "ftthd"
version = "0.1.0"
edition = "2021"
publish = false

[dependencies]
clap = { version = "*", features = ["derive"] }
env_logger = "*"
futures = "*"
libc = "*"
log = "*"
netlink-packet-core = "*"
netlink-packet-route = "*"
netlink-proto = "*"
parking_lot = "*"
rtnetlink = "*"
serde = { version = "*", features = ["derive"] }
tokio = { version = "*", features = ["full"] }
toml = "*"
