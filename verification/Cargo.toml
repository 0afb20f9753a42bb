[package]
name = "native_tauri_surface"
version = "0.1.0"
edition = "2021"
publish = false

[dependencies]
wgpu = "*"
pollster = "*"
raw-window-handle = "0.6"
serde = { version = "1", features = ["derive"] }
objc2 = "0.6"
objc2-app-kit = "0.3"
objc2-foundation = "0.3"
objc2-quartz-core = "0.3"
wasm-bindgen = "0.2"
wasm-bindgen-futures = "0.4"
web-sys = "0.3"
