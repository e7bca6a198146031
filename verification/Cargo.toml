[package]
name = "socks5"
version = "0.1.0"
edition = "2021"
publish = false

[dependencies]
tokio = { version = "1", features = ["full"] }
maxminddb = "*"
stunclient = "*"
advanced-random-string = "*"
libc = "*"
