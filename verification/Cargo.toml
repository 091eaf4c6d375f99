[package]
name = "lxlake"
version = "0.1.0"
edition = "2021"
publish = false

[dependencies]
ab_glyph = "=0.2.32"
bytemuck = { version = "=1.25.2", features = ["derive"] }
crossbeam-deque = "=0.8.8"
glam = "=0.34.2"
quote = "=1.0.47"
raw-window-handle = "=0.6.2"
syn = { version = "=2.0.119", features = ["full"] }
tokio = { version = "=1.54.1", features = ["rt-multi-thread", "time", "sync"] }
toml = "=1.1.8"
tracing = "=0.1.44"
tracing-appender = "=0.2.5"
tracing-subscriber = { version = "=0.3.23", features = ["env-filter"] }
wgpu = "=30.0.1"
winit = "=0.30.13"
wry = { version = "*", default-features = false }
