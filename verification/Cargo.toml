[package]
name = "aether_render"
version = "0.1.0"
edition = "2021"
publish = false

[dependencies]
wgpu = { version = "=30.0.1", features = ["counters"] }
wgpu-types = { version = "=30.0.1", features = ["counters"] }
swf = "=0.4.0"
fnv = "=1.0.7"
