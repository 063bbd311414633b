[package]
name = "pipe_cleaner"
version = "0.1.0"
edition = "2021"
publish = false

[dependencies]
bytemuck = { version = "=1.25.2", features = ["derive", "must_cast"] }
wasmtime = { version = "46", default-features = false, features = ["runtime", "cranelift", "std"] }
wgpu = { version = "=25.0.2" }
pollster = { version = "=1.0.1" }
sdl3 = { version = "=0.20.0", features = ["raw-window-handle"] }
