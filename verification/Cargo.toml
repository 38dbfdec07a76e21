[package]
name = "squish"
version = "0.1.0"
edition = "2021"
publish = false

[dependencies]
chrono = "0.4"
colored = "2"
glob = "0.3"
humansize = "2"
libc = "0.2"
rustyline = "14"
which = "6"
