[package]
name = "gpu_allocator"
version = "0.1.0"
edition = "2021"
publish = false

[dependencies]
log = "=0.4.34"
thiserror = "=2.0.21"

[dependencies.windows]
version = "=0.58.0"
features = [
    "Win32_Foundation",
    "Win32_Graphics_Direct3D12",
    "Win32_Graphics_Dxgi",
    "Win32_Graphics_Dxgi_Common",
]
