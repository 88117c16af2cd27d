[package]
name = "vimlite"
version = "0.1.0"
edition = "2021"
publish = false

[dependencies]
tinyvec = { version = "1", features = ["alloc"] }
log = "0.4"
log4rs = "1"
anyhow = "1"
terminal_size = "0.4"
termios = "0.3"

[dev-dependencies]
textwrap = "0.16"
