[package]
name = "cpumon"
version = "0.1.0"
edition = "2021"
publish = false

[dependencies]
libc = "*"
log = "*"
winapi = { version = "0.3", features = ["processthreadsapi", "minwindef"] }
