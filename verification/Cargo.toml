[package]
name = "wasapi_core"
version = "0.1.0"
edition = "2021"
publish = false

[dependencies]
crossbeam-channel = "0.5"
jni = "0.20"
lazy_static = "1"
log = "0.4"
fast_log = "*"
function_name = "*"
time = { version = "0.3", features = ["formatting"] }
wasapi = "*"
windows = { version = "*", features = ["Win32_Foundation", "Win32_System_Threading"] }
