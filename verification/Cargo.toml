[package]
name = "perpetuo"
version = "0.1.0"
edition = "2021"
publish = false

[dependencies]
anyhow = "=1.0.104"
bytemuck = { version = "=1.25.2", features = ["derive"] }
clap = { version = "=4.6.7", features = ["derive"] }
console = "=0.16.6"
indoc = "=2.0.8"
libc = "=0.2.191"
memmap = "=0.7.0"
once_cell = "=1.21.4"
proc-maps = "=0.3.2"
py-spy = { version = "=0.3.14", default-features = false }
pyo3 = { version = "=0.18.3", features = ["abi3-py37"] }
remoteprocess = "=0.4.13"
serde = { version = "=1.0.229", features = ["derive"] }
serde_json = "=1.0.154"
windows-sys = { version = "=0.59.0", features = ["Win32_System_SystemInformation"] }
