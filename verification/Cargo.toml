[package]
name = "sharphttp"
version = "0.1.0"
edition = "2021"
publish = false

[dependencies]
brotli = "7"
bytes = "1"
cookie_store = "0.21"
encoding_rs = "0.8"
flate2 = "1"
hyper = { version = "0.14", features = ["client", "http1", "http2", "tcp"] }
hyper-tls = "0.5"
libc = "0.2"
num_cpus = "1"
once_cell = "1"
parking_lot = "0.12"
pyo3 = { version = "0.20", features = ["extension-module", "abi3-py37"] }
pyo3-asyncio = { version = "0.20", features = ["tokio-runtime"] }
serde_json = "1"
smallvec = "1"
tokio = { version = "1", features = ["rt-multi-thread"] }
url = "2"
urlencoding = "2"
