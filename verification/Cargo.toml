[package]
name = "ep_main"
version = "0.1.0"
edition = "2021"
publish = false

[dependencies]
naga = { version = "=30.0.1", features = ["wgsl-in"] }
wgpu = "=30.0.1"
pollster = "=1.0.1"
jni = "=0.21.1"
raw-window-handle = "=0.6.2"
objc2 = "=0.6.5"
objc2-core-foundation = "=0.3.2"
objc2-quartz-core = "=0.3.2"
dispatch2 = "=0.3.1"
