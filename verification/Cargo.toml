[package]
name = "total_viewsheds"
version = "0.1.0"
edition = "2021"
publish = false

[dependencies]
bytemuck = { version = "=1.25.2", features = ["extern_crate_alloc"] }
memchr = "=2.8.3"
clap = { version = "4", features = ["derive"] }
color-eyre = "0.6"
cudarc = { version = "0.17", default-features = false, features = ["std", "driver", "nvrtc", "dynamic-loading", "cuda-12080"] }
fjall = "2"
gdal = "0.18"
geo = { version = "0.31", default-features = false }
geojson = "0.24"
image = { version = "0.25", default-features = false, features = ["png"] }
pollster = "0.4"
rayon = "1"
rusqlite = { version = "0.37", features = ["bundled"] }
serde = { version = "1", features = ["derive"] }
serde_json = "1"
tracing = "0.1"
tracing-subscriber = { version = "0.3", features = ["env-filter"] }
wgpu = { version = "27", default-features = false, features = ["std", "vulkan", "wgsl", "spirv"] }
