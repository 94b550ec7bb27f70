[package]
name = "mtproxy"
version = "0.1.0"
edition = "2021"
publish = false

[dependencies]
rust-crypto = "0.2.36"
rustc-serialize = "0.3"
slab = "0.4"
rand = "0.8"
mio = { version = "0.8", features = ["os-poll", "net"] }
log = "0.4"
stderrlog = "0.5"
structopt = "0.3"
