[package]
name = "vortex_range_read"
version = "0.1.0"
edition = "2021"
publish = false

[dependencies]
async-stream = "=0.3.6"
async-trait = "=0.1.92"
flatbuffers = "=25.12.19"
futures = "=0.3.34"
oneshot = { version = "=0.2.1", features = ["async", "std"] }
prost = "=0.14.4"
vortex-buffer = "=0.86.1"
vortex-error = "=0.86.1"
vortex-flatbuffers = { version = "=0.86.1", features = ["array"] }
vortex-metrics = "=0.86.1"
