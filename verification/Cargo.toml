[package]
name = "procfs"
version = "0.1.0"
edition = "2021"
publish = false

[dependencies]
rustix = { version = "=1.1.6", features = ["param", "fs", "process", "system", "use-libc-auxv"] }
chrono = { version = "=0.4.45", default-features = false, features = ["clock", "std"] }
flate2 = "=1.1.10"
