[package]
name = "scx_simulator"
version = "0.1.0"
edition = "2021"
publish = false

[dependencies]
libc = "0.2"
perf-event-open-sys = "*"
tracing = "0.1"
tracing-subscriber = "0.3"
frida-gum = "*"
