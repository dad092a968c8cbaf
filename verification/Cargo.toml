[package]
name = "spectrum_tools"
version = "0.1.0"
edition = "2021"
publish = false

[dependencies]
anyhow = "=1.0.104"
arrayvec = "=0.7.8"
env_logger = "=0.11.11"
futures-util = { version = "=0.3.34", features = ["sink"] }
libc = "=0.2.191"
listenfd = "=1.0.2"
log = "=0.4.34"
miniserde = "=0.1.46"
pathrs = "=0.2.6"
rustix = { version = "=1.1.5", features = ["fs", "mount"] }
tokio = { version = "=1.54.1", features = ["macros", "net", "rt", "sync", "time"] }
tokio-stream = "=0.1.19"
tokio-util = "=0.7.20"
vhost-device-net = "=0.1.1"
vm-memory = { version = "=0.16.2", features = ["backend-mmap"] }

[dev-dependencies]
zerocopy = "=0.8.63"
