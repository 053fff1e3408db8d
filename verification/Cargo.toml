[package]
name = "rrd_core"
version = "0.1.0"
edition = "2021"
publish = false

[dependencies]
zstd = "=0.13.3"
ruzstd = "=0.9.0"
wgpu = "=22.1.0"
parking_lot = "=0.12.5"
type-map = "*"
