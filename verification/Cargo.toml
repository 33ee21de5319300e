[package]
name = "argus"
version = "0.1.0"
edition = "2021"
publish = false

[dependencies]
arrow = { version = "=59.3.2", default-features = false }
ringbuf = "=0.6.0"
thiserror = "=2.0.21"
tokio = { version = "=1.54.1", features = ["rt"] }
pyo3 = "=0.30.1"
pyo3-arrow = "=0.20.0"
yfinance-rs = "=0.9.1"
