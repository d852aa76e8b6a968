[package]
name = "raft_core"
version = "0.1.0"
edition = "2021"
publish = false

[dependencies]
libc = "0.2"
memmap2 = "*"
object-pool = "*"
prost = "*"
serf = "*"
thiserror = "*"
tokio = { version = "1", features = ["rt-multi-thread", "macros", "sync", "time"] }
tokio-util = "*"
tonic = "*"
