[package]
name = "udpx"
version = "0.1.0"
edition = "2021"
publish = false

[dependencies]
clap = { version = "3", features = ["derive"] }
ctrlc = "3"
env_logger = "0.9"
log = "0.4"
mime = "0.3"
num_cpus = "1"
threadpool = "1"

[dev-dependencies]
rand = "0.8"
stringreader = "0.1"
