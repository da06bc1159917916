[package]
name = "dungen"
version = "0.1.0"
edition = "2021"
publish = false

[dependencies]
fastrand = "*"
pathfinding = "*"
integer-sqrt = "*"
num-traits = "*"
euclid = "*"
serde = { version = "1", features = ["derive"] }
serde_json = "1"
rmp-serde = "*"
tiny-skia = "*"
stroke = "*"
lazy_static = "*"
log = "*"
env_logger = "*"
pad = "*"
terminal-menu = "*"
thiserror = "*"
bitflags = "*"
