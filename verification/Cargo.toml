[package]
name = "voxel_stream"
version = "0.1.0"
edition = "2021"
publish = false

[dependencies]
lru = "0.7"
rand = "0.8"
simdnoise = "3.1"
bevy_tasks = "0.5"
futures-lite = "1"
num_cpus = "1"
dashmap = "4"
