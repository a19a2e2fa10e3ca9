[package]
name = "pipex"
version = "0.1.0"
edition = "2021"
publish = false

[dependencies]
dashmap = "5"
once_cell = "1"
thiserror = "1"
tokio = { version = "1", features = ["rt-multi-thread", "macros", "time", "sync"] }
futures = "0.3"
futures-channel = "0.3"
rayon = "1"
anyhow = "1"
wgpu = "0.19"
bytemuck = "1"
syn = { version = "2", features = ["full", "visit-mut"] }
quote = "1"
proc-macro2 = "1"
