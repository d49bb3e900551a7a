[package]
name = "serde_ipc"
version = "0.1.0"
edition = "2021"
publish = false

[dependencies]
rand = "*"
serde = { version = "*", features = ["derive"] }
serde_json = "*"
tokio = { version = "*", features = ["net", "rt-multi-thread", "io-util", "macros"] }
threadpool = "*"
num_cpus = "*"
shared_memory = "*"
libc = "*"
libloading = "*"
shellexpand = "*"
confy = "*"
